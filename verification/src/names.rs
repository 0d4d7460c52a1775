//! Package-name validation and normalization.
//!
//! Package names are case-normalized and separator-normalized before they are
//! used as dependency-store keys: ASCII letters are lowered, and every run of
//! `-`, `_` and `.` collapses to a single `-`, so that `Foo-Bar`, `foo_bar`
//! and `FOO.BAR` all resolve to the same key.

use vstd::prelude::*;
use crate::text::{byte_view, char_view, ascii_bytes, str_to_ascii, string_from_ascii};

verus! {

pub open spec fn is_alnum_byte(b: u8) -> bool {
    (97 <= b <= 122) || (65 <= b <= 90) || (48 <= b <= 57)
}

pub open spec fn is_separator_byte(b: u8) -> bool {
    b == 45 || b == 95 || b == 46
}

pub open spec fn is_name_byte(b: u8) -> bool {
    is_alnum_byte(b) || is_separator_byte(b)
}

pub open spec fn lower_byte(b: u8) -> u8 {
    if 65 <= b <= 90 {
        (b + 32) as u8
    } else {
        b
    }
}

/// A syntactically valid package name: nonempty, made of ASCII letters,
/// digits and `-`/`_`/`.`, neither starting nor ending with a separator.
pub open spec fn valid_name_bytes(s: Seq<u8>) -> bool {
    &&& s.len() > 0
    &&& forall|i: int| 0 <= i < s.len() ==> is_name_byte(#[trigger] s[i])
    &&& !is_separator_byte(s[0])
    &&& !is_separator_byte(s[s.len() - 1])
}

/// The canonical form of a name: letters lowered, every run of separators
/// replaced by one `-`.
pub open spec fn normalized_bytes(s: Seq<u8>) -> Seq<u8>
    decreases s.len(),
{
    if s.len() == 0 {
        Seq::empty()
    } else {
        let tail = normalized_bytes(s.skip(1));
        if is_separator_byte(s[0]) {
            if tail.len() > 0 && tail[0] == 45 {
                tail
            } else {
                seq![45u8] + tail
            }
        } else {
            seq![lower_byte(s[0])] + tail
        }
    }
}

fn lower_byte_exec(b: u8) -> (r: u8)
    ensures
        r == lower_byte(b),
{
    if 65 <= b && b <= 90 {
        b + 32
    } else {
        b
    }
}

fn is_separator_byte_exec(b: u8) -> (r: bool)
    ensures
        r == is_separator_byte(b),
{
    b == 45 || b == 95 || b == 46
}

pub(crate) fn is_name_byte_exec(b: u8) -> (r: bool)
    ensures
        r == is_name_byte(b),
{
    (97 <= b && b <= 122) || (65 <= b && b <= 90) || (48 <= b && b <= 57) || b == 45 || b == 95
        || b == 46
}

fn valid_name_bytes_exec(s: &Vec<u8>) -> (r: bool)
    ensures
        r == valid_name_bytes(s@),
{
    if s.len() == 0 {
        return false;
    }
    if is_separator_byte_exec(s[0]) || is_separator_byte_exec(s[s.len() - 1]) {
        return false;
    }
    let mut i: usize = 0;
    while i < s.len()
        invariant
            i <= s@.len(),
            forall|j: int| 0 <= j < i ==> is_name_byte(#[trigger] s@[j]),
        decreases s@.len() - i,
    {
        if !is_name_byte_exec(s[i]) {
            return false;
        }
        i += 1;
    }
    true
}

fn normalize_from(s: &Vec<u8>, i: usize) -> (r: Vec<u8>)
    requires
        i <= s@.len(),
    ensures
        r@ == normalized_bytes(s@.skip(i as int)),
    decreases s@.len() - i,
{
    if i == s.len() {
        let r: Vec<u8> = Vec::new();
        assert(s@.skip(i as int) =~= Seq::<u8>::empty());
        r
    } else {
        let mut tail = normalize_from(s, i + 1);
        proof {
            assert(s@.skip(i as int) =~= seq![s@[i as int]] + s@.skip(i as int + 1));
            assert(s@.skip(i as int)[0] == s@[i as int]);
            assert(s@.skip(i as int).skip(1) =~= s@.skip(i as int + 1));
        }
        if is_separator_byte_exec(s[i]) {
            if tail.len() > 0 && tail[0] == 45 {
                tail
            } else {
                tail.insert(0, 45);
                assert(tail@ =~= seq![45u8] + normalized_bytes(s@.skip(i as int + 1)));
                tail
            }
        } else {
            let c = lower_byte_exec(s[i]);
            tail.insert(0, c);
            assert(tail@ =~= seq![lower_byte(s@[i as int])] + normalized_bytes(
                s@.skip(i as int + 1),
            ));
            tail
        }
    }
}

proof fn lemma_normalized_ascii(s: Seq<u8>)
    requires
        forall|i: int| 0 <= i < s.len() ==> is_name_byte(#[trigger] s[i]),
    ensures
        ascii_bytes(normalized_bytes(s)),
    decreases s.len(),
{
    if s.len() > 0 {
        assert(forall|i: int|
            0 <= i < s.skip(1).len() ==> is_name_byte(#[trigger] s.skip(1)[i]));
        lemma_normalized_ascii(s.skip(1));
    }
}

/// Whether a raw string is a syntactically valid package name.
pub fn is_valid_package_name(name: &str) -> (r: bool)
    ensures
        r == (name.is_ascii() && valid_name_bytes(byte_view(name@))),
{
    match str_to_ascii(name) {
        None => false,
        Some(bytes) => valid_name_bytes_exec(&bytes),
    }
}

/// The canonical dependency-store key of a package name, or `None` when the
/// name is not a syntactically valid package name.
pub fn normalize_package_name(name: &str) -> (r: Option<String>)
    ensures
        r is Some <==> (name.is_ascii() && valid_name_bytes(byte_view(name@))),
        r matches Some(t) ==> t@ == char_view(normalized_bytes(byte_view(name@))),
{
    match str_to_ascii(name) {
        None => None,
        Some(bytes) => {
            if !valid_name_bytes_exec(&bytes) {
                None
            } else {
                let normed = normalize_from(&bytes, 0);
                proof {
                    assert(bytes@.skip(0) =~= bytes@);
                    lemma_normalized_ascii(bytes@);
                }
                Some(string_from_ascii(normed))
            }
        },
    }
}

/// Normalization is idempotent: the canonical form of a canonical form is
/// itself. A store key computed from a key is that key.
pub proof fn lemma_normalize_idempotent(s: Seq<u8>)
    ensures
        normalized_bytes(normalized_bytes(s)) == normalized_bytes(s),
    decreases s.len(),
{
    if s.len() == 0 {
    } else {
        lemma_normalize_idempotent(s.skip(1));
        let tail = normalized_bytes(s.skip(1));
        if is_separator_byte(s[0]) {
            if tail.len() > 0 && tail[0] == 45 {
            } else {
                let whole = seq![45u8] + tail;
                assert(whole.skip(1) =~= tail);
                assert(normalized_bytes(whole) == seq![45u8] + tail || normalized_bytes(whole)
                    == tail) by {
                    assert(whole[0] == 45);
                }
                if tail.len() > 0 {
                    assert(normalized_bytes(tail)[0] == tail[0] || tail[0] == 45);
                }
                assert(normalized_bytes(whole) =~= seq![45u8] + tail);
            }
        } else {
            let whole = seq![lower_byte(s[0])] + tail;
            assert(whole.skip(1) =~= tail);
            assert(!is_separator_byte(whole[0]));
            assert(lower_byte(whole[0]) == whole[0]);
            assert(normalized_bytes(whole) =~= seq![lower_byte(s[0])] + tail);
        }
    }
}

} // verus!
