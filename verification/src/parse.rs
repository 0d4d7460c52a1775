//! The manifest parser: maps a structured configuration document to the
//! typed workspace/feature/environment graph, running the version gate as
//! soon as the workspace section has been read.

use vstd::prelude::*;
use crate::text::{ascii_bytes, str_to_ascii, string_from_ascii};
use crate::error::ManifestError;
use crate::deps::{DependencySpec, DependencyStore, DependencyOverwriteBehavior};
use crate::model::{
    Feature, EnvironmentDef, Workspace, Manifest, ForeignSection, SpecKind,
    unique_feature_names, unique_environment_names, environment_exists, feature_exists,
    env_feature_names, all_features_exist,
};
use crate::names::normalize_package_name;
use crate::version::check_pixi_version;

verus! {

/// The invariant that parsing maintains on the growing feature list.
pub open spec fn features_invariant(fs: Seq<Feature>) -> bool {
    &&& fs.len() >= 1
    &&& fs[0].name@ == "default"@
    &&& unique_feature_names(fs)
    &&& forall|i: int|
        0 <= i < fs.len() ==> (#[trigger] fs[i]).dependencies.wf()
            && fs[i].pypi_dependencies.wf()
}

pub(crate) fn sub_bytes(v: &Vec<u8>, a: usize, b: usize) -> (r: Vec<u8>)
    requires
        a <= b <= v@.len(),
    ensures
        r@ == v@.subrange(a as int, b as int),
{
    let mut r: Vec<u8> = Vec::new();
    let mut i: usize = a;
    while i < b
        invariant
            a <= i <= b <= v@.len(),
            r@ == v@.subrange(a as int, i as int),
        decreases b - i,
    {
        r.push(v[i]);
        assert(r@ =~= v@.subrange(a as int, i as int + 1));
        i += 1;
    }
    r
}

/// A space, tab or carriage-return byte.
pub open spec fn is_blank(b: u8) -> bool {
    b == 32 || b == 9 || b == 13
}

fn is_blank_byte(b: u8) -> (r: bool)
    ensures
        r == is_blank(b),
{
    b == 32 || b == 9 || b == 13
}

pub open spec fn trim_front(s: Seq<u8>) -> Seq<u8>
    decreases s.len(),
{
    if s.len() > 0 && is_blank(s[0]) {
        trim_front(s.skip(1))
    } else {
        s
    }
}

pub open spec fn trim_back(s: Seq<u8>) -> Seq<u8>
    decreases s.len(),
{
    if s.len() > 0 && is_blank(s.last()) {
        trim_back(s.drop_last())
    } else {
        s
    }
}

/// `s` without its leading and trailing blanks.
pub open spec fn trimmed(s: Seq<u8>) -> Seq<u8> {
    trim_back(trim_front(s))
}

/// Strips leading and trailing spaces, tabs and carriage returns.
pub(crate) fn trim_bytes(v: &Vec<u8>) -> (r: Vec<u8>)
    ensures
        r@ == trimmed(v@),
        ascii_bytes(v@) ==> ascii_bytes(r@),
{
    let mut a: usize = 0;
    proof {
        assert(v@.skip(0) =~= v@);
    }
    while a < v.len() && is_blank_byte(v[a])
        invariant
            a <= v@.len(),
            trim_front(v@) == trim_front(v@.skip(a as int)),
        decreases v@.len() - a,
    {
        proof {
            assert(v@.skip(a as int)[0] == v@[a as int]);
            assert(v@.skip(a as int).skip(1) =~= v@.skip(a as int + 1));
        }
        a += 1;
    }
    proof {
        assert(trim_front(v@) == v@.skip(a as int));
    }
    let ghost t = v@.skip(a as int);
    let mut b: usize = v.len();
    proof {
        assert(t.take(b - a as int) =~= t);
    }
    while b > a && is_blank_byte(v[b - 1])
        invariant
            a <= b <= v@.len(),
            t == v@.skip(a as int),
            trim_back(t) == trim_back(t.take(b - a as int)),
        decreases b,
    {
        proof {
            assert(t.take(b - a as int).last() == v@[b - 1]);
            assert(t.take(b - a as int).drop_last() =~= t.take(b - 1 - a as int));
        }
        b -= 1;
    }
    proof {
        if b == a {
            assert(t.take(0) =~= Seq::<u8>::empty());
        }
        assert(t.take(b - a as int) =~= v@.subrange(a as int, b as int));
        assert(trim_back(t.take(b - a as int)) == t.take(b - a as int));
    }
    let r = sub_bytes(v, a, b);
    proof {
        if ascii_bytes(v@) {
            assert(forall|i: int| 0 <= i < r@.len() ==> r@[i] == v@[a + i] && v@[a + i] < 128);
        }
    }
    r
}

/// The offset of the first newline byte, or the length when there is none.
pub open spec fn nl_pos(s: Seq<u8>) -> int
    decreases s.len(),
{
    if s.len() == 0 || s[0] == 10 {
        0
    } else {
        1 + nl_pos(s.skip(1))
    }
}

proof fn lemma_nl_pos_concat(a: Seq<u8>, b: Seq<u8>)
    requires
        forall|i: int| 0 <= i < a.len() ==> #[trigger] a[i] != 10,
    ensures
        nl_pos(a + b) == a.len() + nl_pos(b),
    decreases a.len(),
{
    if a.len() == 0 {
        assert(a + b =~= b);
    } else {
        assert((a + b)[0] == a[0]);
        assert((a + b).skip(1) =~= a.skip(1) + b);
        assert(forall|i: int| 0 <= i < a.skip(1).len() ==> #[trigger] a.skip(1)[i] != 10);
        lemma_nl_pos_concat(a.skip(1), b);
    }
}

/// The lines of a byte buffer, split at each newline byte; a buffer without
/// one is a single line.
pub open spec fn lines_of(s: Seq<u8>) -> Seq<Seq<u8>>
    decreases s.len(),
{
    let b = nl_pos(s);
    if b < 0 || b >= s.len() {
        seq![s]
    } else {
        seq![s.take(b)] + lines_of(s.skip(b + 1))
    }
}

/// The views of a list of byte vectors.
pub open spec fn vecs_view(s: Seq<Vec<u8>>) -> Seq<Seq<u8>> {
    s.map_values(|v: Vec<u8>| v@)
}

proof fn lemma_lines_of_step(cur: Seq<u8>, rest: Seq<u8>)
    requires
        forall|i: int| 0 <= i < cur.len() ==> #[trigger] cur[i] != 10,
    ensures
        rest.len() == 0 ==> lines_of(cur + rest) == seq![cur + rest] && cur + rest =~= cur,
        rest.len() > 0 && rest[0] == 10 ==> lines_of(cur + rest) == seq![cur] + lines_of(
            rest.skip(1),
        ),
{
    let s = cur + rest;
    if rest.len() == 0 {
        assert(s =~= cur);
        lemma_nl_pos_concat(cur, rest);
        assert(nl_pos(s) == cur.len() + nl_pos(rest));
    } else if rest[0] == 10 {
        lemma_nl_pos_concat(cur, rest);
        assert(nl_pos(s) == cur.len());
        assert(s.take(cur.len() as int) =~= cur);
        assert(s.skip(cur.len() as int + 1) =~= rest.skip(1));
    }
}

/// Splits a byte buffer into lines at each newline byte.
pub(crate) fn split_lines(v: &Vec<u8>) -> (r: Vec<Vec<u8>>)
    requires
        ascii_bytes(v@),
    ensures
        vecs_view(r@) == lines_of(v@),
        forall|i: int| 0 <= i < r@.len() ==> ascii_bytes((#[trigger] r@[i])@),
{
    let mut r: Vec<Vec<u8>> = Vec::new();
    let mut cur: Vec<u8> = Vec::new();
    let mut i: usize = 0;
    proof {
        assert(v@.skip(0) =~= v@);
        assert(Seq::<u8>::empty() + v@ =~= v@);
    }
    while i < v.len()
        invariant
            ascii_bytes(v@),
            i <= v@.len(),
            ascii_bytes(cur@),
            forall|j: int| 0 <= j < cur@.len() ==> #[trigger] cur@[j] != 10,
            forall|j: int| 0 <= j < r@.len() ==> ascii_bytes((#[trigger] r@[j])@),
            lines_of(v@) == vecs_view(r@) + lines_of(cur@ + v@.skip(i as int)),
        decreases v@.len() - i,
    {
        proof {
            assert(v@.skip(i as int)[0] == v@[i as int]);
            assert(v@.skip(i as int).skip(1) =~= v@.skip(i as int + 1));
        }
        if v[i] == 10 {
            let ghost curv = cur@;
            let ghost rv = vecs_view(r@);
            proof {
                lemma_lines_of_step(cur@, v@.skip(i as int));
                assert(lines_of(v@) == rv + (seq![curv] + lines_of(v@.skip(i as int + 1))));
            }
            r.push(cur);
            cur = Vec::new();
            proof {
                assert(forall|j: int|
                    0 <= j < r@.len() ==> #[trigger] vecs_view(r@)[j] == r@[j]@);
                assert(vecs_view(r@) =~= rv + seq![curv]);
                assert((rv + seq![curv]) + lines_of(v@.skip(i as int + 1)) =~= rv + (seq![curv]
                    + lines_of(v@.skip(i as int + 1))));
                assert(cur@ + v@.skip(i as int + 1) =~= v@.skip(i as int + 1));
            }
        } else {
            let ghost curv = cur@;
            let b = v[i];
            cur.push(b);
            proof {
                assert(cur@ + v@.skip(i as int + 1) =~= curv + v@.skip(i as int));
            }
        }
        i += 1;
    }
    proof {
        assert(v@.skip(v@.len() as int) =~= Seq::<u8>::empty());
        lemma_lines_of_step(cur@, v@.skip(v@.len() as int));
    }
    r.push(cur);
    proof {
        assert(forall|j: int| 0 <= j < r@.len() ==> #[trigger] vecs_view(r@)[j] == r@[j]@);
        assert(vecs_view(r@) =~= lines_of(v@));
    }
    r
}

/// A parsed right-hand-side value of an inline-table field.
enum TableVal {
    Str(String),
    Flag(bool),
    Arr(Vec<String>),
}

/// What a double-quoted value looks like: quotes around a body free of
/// them.
pub open spec fn quoted_bytes(v: Seq<u8>) -> bool {
    &&& v.len() >= 2
    &&& v[0] == 34
    &&& v[v.len() - 1] == 34
    &&& forall|i: int| 1 <= i < v.len() - 1 ==> v[i] != 34
}

/// Reads a double-quoted string covering the whole (trimmed) value.
pub(crate) fn parse_quoted(v: &Vec<u8>) -> (r: Option<String>)
    requires
        ascii_bytes(v@),
    ensures
        r is Some <==> quoted_bytes(v@),
        r matches Some(s) ==> s@ == crate::text::char_view(v@.subrange(1, v@.len() - 1)),
{
    if v.len() < 2 || v[0] != 34 || v[v.len() - 1] != 34 {
        return None;
    }
    let mut i: usize = 1;
    while i < v.len() - 1
        invariant
            v@.len() >= 2,
            1 <= i <= v@.len() - 1,
            forall|j: int| 1 <= j < i ==> v@[j] != 34,
        decreases v@.len() - i,
    {
        if v[i] == 34 {
            return None;
        }
        i += 1;
    }
    let inner = sub_bytes(v, 1, v.len() - 1);
    Some(string_from_ascii(inner))
}

/// The offset of the first comma, or the length when there is none.
pub open spec fn comma_pos(s: Seq<u8>) -> int
    decreases s.len(),
{
    if s.len() == 0 || s[0] == 44 {
        0
    } else {
        1 + comma_pos(s.skip(1))
    }
}

proof fn lemma_comma_pos_concat(a: Seq<u8>, b: Seq<u8>)
    requires
        forall|i: int| 0 <= i < a.len() ==> #[trigger] a[i] != 44,
    ensures
        comma_pos(a + b) == a.len() + comma_pos(b),
    decreases a.len(),
{
    if a.len() == 0 {
        assert(a + b =~= b);
    } else {
        assert((a + b)[0] == a[0]);
        assert((a + b).skip(1) =~= a.skip(1) + b);
        assert(forall|i: int| 0 <= i < a.skip(1).len() ==> #[trigger] a.skip(1)[i] != 44);
        lemma_comma_pos_concat(a.skip(1), b);
    }
}

/// The quoted item a comma-separated piece holds, when it is one.
pub open spec fn quoted_item(s: Seq<u8>) -> Option<Seq<char>> {
    let t = trimmed(s);
    if quoted_bytes(t) {
        Some(crate::text::char_view(t.subrange(1, t.len() - 1)))
    } else {
        None
    }
}

/// The values of a nonempty comma-separated list of quoted items, or `None`
/// when any piece is not one.
pub open spec fn parse_items(s: Seq<u8>) -> Option<Seq<Seq<char>>>
    decreases s.len(),
{
    let c = comma_pos(s);
    if 0 <= c && c < s.len() {
        match (quoted_item(s.take(c)), parse_items(s.skip(c + 1))) {
            (Some(x), Some(rest)) => Some(seq![x] + rest),
            _ => None,
        }
    } else {
        match quoted_item(s) {
            Some(x) => Some(seq![x]),
            None => None,
        }
    }
}

/// What a `["a", "b"]` array line holds: its quoted values in order, or
/// `None` when it is not such an array.
pub open spec fn parse_array_spec(v: Seq<u8>) -> Option<Seq<Seq<char>>> {
    if v.len() >= 2 && v[0] == 91 && v[v.len() - 1] == 93 {
        let inner = trimmed(v.subrange(1, v.len() - 1));
        if inner.len() == 0 {
            Some(Seq::empty())
        } else {
            parse_items(inner)
        }
    } else {
        None
    }
}

/// `vs` prepended to each value of `rest`.
pub open spec fn prepend_items(vs: Seq<Seq<char>>, rest: Option<Seq<Seq<char>>>) -> Option<
    Seq<Seq<char>>,
> {
    match rest {
        Some(r) => Some(vs + r),
        None => None,
    }
}

proof fn lemma_parse_items_step(cur: Seq<u8>, rest: Seq<u8>)
    requires
        forall|i: int| 0 <= i < cur.len() ==> #[trigger] cur[i] != 44,
    ensures
        rest.len() == 0 ==> parse_items(cur + rest) == (match quoted_item(cur) {
            Some(x) => Some(seq![x]),
            None => None::<Seq<Seq<char>>>,
        }),
        rest.len() > 0 && rest[0] == 44 ==> parse_items(cur + rest) == (match (
            quoted_item(cur),
            parse_items(rest.skip(1)),
        ) {
            (Some(x), Some(r)) => Some(seq![x] + r),
            _ => None::<Seq<Seq<char>>>,
        }),
{
    let s = cur + rest;
    lemma_comma_pos_concat(cur, rest);
    if rest.len() == 0 {
        assert(s =~= cur);
        assert(comma_pos(s) == cur.len() + comma_pos(rest));
    } else if rest[0] == 44 {
        assert(comma_pos(s) == cur.len());
        assert(s.take(cur.len() as int) =~= cur);
        assert(s.skip(cur.len() as int + 1) =~= rest.skip(1));
    }
}

/// Reads a `["a", "b"]` array of quoted strings.
fn parse_string_array(v: &Vec<u8>) -> (r: Option<Vec<String>>)
    requires
        ascii_bytes(v@),
    ensures
        r is Some <==> parse_array_spec(v@) is Some,
        r matches Some(xs) ==> parse_array_spec(v@) == Some(crate::deps::strs_view(xs@)),
{
    if v.len() < 2 || v[0] != 91 || v[v.len() - 1] != 93 {
        return None;
    }
    let inner = trim_bytes(&sub_bytes(v, 1, v.len() - 1));
    proof {
        assert(inner@ == trimmed(v@.subrange(1, v@.len() - 1)));
    }
    let mut out: Vec<String> = Vec::new();
    if inner.len() == 0 {
        proof {
            assert(crate::deps::strs_view(out@) =~= Seq::<Seq<char>>::empty());
        }
        return Some(out);
    }
    // split on commas
    let mut item: Vec<u8> = Vec::new();
    let mut i: usize = 0;
    proof {
        assert(inner@.skip(0) =~= inner@);
        assert(Seq::<u8>::empty() + inner@ =~= inner@);
    }
    while i < inner.len()
        invariant
            inner@ == trimmed(v@.subrange(1, v@.len() - 1)),
            inner@.len() > 0,
            i <= inner@.len(),
            ascii_bytes(inner@),
            ascii_bytes(item@),
            forall|j: int| 0 <= j < item@.len() ==> #[trigger] item@[j] != 44,
            parse_items(inner@) == prepend_items(
                crate::deps::strs_view(out@),
                parse_items(item@ + inner@.skip(i as int)),
            ),
        decreases inner@.len() - i,
    {
        proof {
            assert(inner@.skip(i as int)[0] == inner@[i as int]);
            assert(inner@.skip(i as int).skip(1) =~= inner@.skip(i as int + 1));
        }
        if inner[i] == 44 {
            let ghost itemv = item@;
            let ghost outv = crate::deps::strs_view(out@);
            proof {
                lemma_parse_items_step(item@, inner@.skip(i as int));
            }
            let t = trim_bytes(&item);
            match parse_quoted(&t) {
                Some(s) => {
                    out.push(s);
                    proof {
                        assert(forall|j: int|
                            0 <= j < out@.len() ==> #[trigger] crate::deps::strs_view(out@)[j]
                                == out@[j]@);
                        assert(quoted_item(itemv) == Some(s@));
                        assert(crate::deps::strs_view(out@) =~= outv + seq![s@]);
                    }
                },
                None => {
                    proof {
                        assert(quoted_item(itemv) is None);
                    }
                    return None;
                },
            }
            item = Vec::new();
            proof {
                assert(item@ + inner@.skip(i as int + 1) =~= inner@.skip(i as int + 1));
                if parse_items(inner@.skip(i as int + 1)) is Some {
                    let r = parse_items(inner@.skip(i as int + 1))->0;
                    assert((outv + seq![quoted_item(itemv)->0]) + r =~= outv + (seq![
                        quoted_item(itemv)->0,
                    ] + r));
                }
            }
        } else {
            let ghost itemv = item@;
            item.push(inner[i]);
            proof {
                assert(item@ + inner@.skip(i as int + 1) =~= itemv + inner@.skip(i as int));
            }
        }
        i += 1;
    }
    proof {
        assert(inner@.skip(inner@.len() as int) =~= Seq::<u8>::empty());
        assert(item@ + inner@.skip(inner@.len() as int) =~= item@);
        lemma_parse_items_step(item@, Seq::<u8>::empty());
        assert(item@ + Seq::<u8>::empty() =~= item@);
    }
    let ghost outv = crate::deps::strs_view(out@);
    let ghost itemv = item@;
    let t = trim_bytes(&item);
    match parse_quoted(&t) {
        Some(s) => {
            out.push(s);
            proof {
                assert(forall|j: int|
                    0 <= j < out@.len() ==> #[trigger] crate::deps::strs_view(out@)[j]
                        == out@[j]@);
                assert(quoted_item(itemv) == Some(s@));
                assert(crate::deps::strs_view(out@) =~= outv + seq![s@]);
            }
        },
        None => {
            proof {
                assert(quoted_item(itemv) is None);
            }
            return None;
        },
    }
    Some(out)
}

/// Reads a `{ key = value, ... }` inline table with string, boolean or
/// array values.
fn parse_inline_table(v: &Vec<u8>) -> (r: Option<Vec<(String, TableVal)>>)
    requires
        ascii_bytes(v@),
{
    if v.len() < 2 || v[0] != 123 || v[v.len() - 1] != 125 {
        return None;
    }
    let inner = trim_bytes(&sub_bytes(v, 1, v.len() - 1));
    let mut out: Vec<(String, TableVal)> = Vec::new();
    if inner.len() == 0 {
        return Some(out);
    }
    // split on commas that are not inside brackets
    let mut fields: Vec<Vec<u8>> = Vec::new();
    let mut item: Vec<u8> = Vec::new();
    let mut depth: usize = 0;
    let mut i: usize = 0;
    while i < inner.len()
        invariant
            i <= inner@.len(),
            ascii_bytes(inner@),
            ascii_bytes(item@),
            forall|j: int| 0 <= j < fields@.len() ==> ascii_bytes((#[trigger] fields@[j])@),
        decreases inner@.len() - i,
    {
        let b = inner[i];
        if b == 91 {
            depth = if depth < 1000 {
                depth + 1
            } else {
                depth
            };
            item.push(b);
        } else if b == 93 {
            depth = if depth > 0 {
                depth - 1
            } else {
                0
            };
            item.push(b);
        } else if b == 44 && depth == 0 {
            fields.push(item);
            item = Vec::new();
        } else {
            item.push(b);
        }
        i += 1;
    }
    fields.push(item);
    let mut fi: usize = 0;
    while fi < fields.len()
        invariant
            fi <= fields@.len(),
            forall|j: int| 0 <= j < fields@.len() ==> ascii_bytes((#[trigger] fields@[j])@),
        decreases fields@.len() - fi,
    {
        let field = trim_bytes(&fields[fi]);
        // split at first '='
        let mut eq: usize = 0;
        let mut found = false;
        let mut k: usize = 0;
        while k < field.len()
            invariant
                k <= field@.len(),
                found ==> eq < field@.len(),
            decreases field@.len() - k,
        {
            if field[k] == 61 && !found {
                eq = k;
                found = true;
            }
            k += 1;
        }
        if !found {
            return None;
        }
        let key = trim_bytes(&sub_bytes(&field, 0, eq));
        let val = trim_bytes(&sub_bytes(&field, eq + 1, field.len()));
        let key_s = string_from_ascii(key);
        let parsed: TableVal = if val.len() > 0 && val[0] == 34 {
            match parse_quoted(&val) {
                Some(s) => TableVal::Str(s),
                None => {
                    return None;
                },
            }
        } else if val.len() > 0 && val[0] == 91 {
            match parse_string_array(&val) {
                Some(a) => TableVal::Arr(a),
                None => {
                    return None;
                },
            }
        } else {
            let vs = string_from_ascii(val);
            if vs == String::from_str("true") {
                TableVal::Flag(true)
            } else if vs == String::from_str("false") {
                TableVal::Flag(false)
            } else {
                return None;
            }
        };
        out.push((key_s, parsed));
        fi += 1;
    }
    Some(out)
}


/// Which section of the document the parser is inside.
enum Section {
    Preamble,
    Workspace,
    Foreign,
    Deps { feature: String, kind: SpecKind, platform: Option<String> },
    Tasks { feature: String },
    FeatureAttrs { feature: String },
    Environments,
}

/// Splits a header's inside on dots and trims each part.
fn split_dots(v: &Vec<u8>) -> (r: Vec<String>)
    requires
        ascii_bytes(v@),
{
    let mut parts: Vec<String> = Vec::new();
    let mut item: Vec<u8> = Vec::new();
    let mut i: usize = 0;
    while i < v.len()
        invariant
            i <= v@.len(),
            ascii_bytes(v@),
            ascii_bytes(item@),
        decreases v@.len() - i,
    {
        if v[i] == 46 {
            parts.push(string_from_ascii(trim_bytes(&item)));
            item = Vec::new();
        } else {
            item.push(v[i]);
        }
        i += 1;
    }
    parts.push(string_from_ascii(trim_bytes(&item)));
    parts
}

/// A header line that opens the workspace section.
pub open spec fn ws_header(line: Seq<u8>) -> bool {
    &&& line.len() >= 2
    &&& line[0] == 91
    &&& line[line.len() - 1] == 93
    &&& ({
        let inner = trimmed(line.subrange(1, line.len() - 1));
        &&& forall|i: int| 0 <= i < inner.len() ==> #[trigger] inner[i] != 46
        &&& (crate::text::char_view(inner) == "workspace"@ || crate::text::char_view(inner)
            == "project"@)
    })
}

fn header_section(line: &Vec<u8>) -> (r: Option<Section>)
    requires
        ascii_bytes(line@),
    ensures
        r matches Some(s) ==> ((s is Workspace) <==> ws_header(line@)) && !(s is Foreign),
        r is None ==> !ws_header(line@),
{
    if line.len() < 2 || line[0] != 91 || line[line.len() - 1] != 93 {
        return None;
    }
    let inner = trim_bytes(&sub_bytes(line, 1, line.len() - 1));
    proof {
        assert(inner@ == trimmed(line@.subrange(1, line@.len() - 1)));
    }
    let mut has_dot = false;
    let mut di: usize = 0;
    while di < inner.len()
        invariant
            inner@ == trimmed(line@.subrange(1, line@.len() - 1)),
            di <= inner@.len(),
            has_dot ==> exists|j: int| 0 <= j < inner@.len() && #[trigger] inner@[j] == 46,
            !has_dot ==> forall|j: int| 0 <= j < di ==> #[trigger] inner@[j] != 46,
        decreases inner@.len() - di,
    {
        if inner[di] == 46 {
            has_dot = true;
        }
        di += 1;
    }
    let default_name = String::from_str("default");
    if !has_dot {
        let p0 = string_from_ascii(inner);
        if p0 == String::from_str("workspace") || p0 == String::from_str("project") {
            Some(Section::Workspace)
        } else if p0 == String::from_str("dependencies") {
            Some(Section::Deps { feature: default_name, kind: SpecKind::Conda, platform: None })
        } else if p0 == String::from_str("pypi-dependencies") {
            Some(Section::Deps { feature: default_name, kind: SpecKind::Pypi, platform: None })
        } else if p0 == String::from_str("tasks") {
            Some(Section::Tasks { feature: default_name })
        } else if p0 == String::from_str("environments") {
            Some(Section::Environments)
        } else {
            None
        }
    } else {
    let parts = split_dots(&inner);
    if parts.len() == 2 {
        if parts[0] == String::from_str("feature") {
            Some(Section::FeatureAttrs { feature: parts[1].clone() })
        } else {
            None
        }
    } else if parts.len() == 3 {
        if parts[0] == String::from_str("target") {
            if parts[2] == String::from_str("dependencies") {
                Some(
                    Section::Deps {
                        feature: default_name,
                        kind: SpecKind::Conda,
                        platform: Some(parts[1].clone()),
                    },
                )
            } else if parts[2] == String::from_str("pypi-dependencies") {
                Some(
                    Section::Deps {
                        feature: default_name,
                        kind: SpecKind::Pypi,
                        platform: Some(parts[1].clone()),
                    },
                )
            } else {
                None
            }
        } else if parts[0] == String::from_str("feature") {
            if parts[2] == String::from_str("dependencies") {
                Some(
                    Section::Deps {
                        feature: parts[1].clone(),
                        kind: SpecKind::Conda,
                        platform: None,
                    },
                )
            } else if parts[2] == String::from_str("pypi-dependencies") {
                Some(
                    Section::Deps {
                        feature: parts[1].clone(),
                        kind: SpecKind::Pypi,
                        platform: None,
                    },
                )
            } else if parts[2] == String::from_str("tasks") {
                Some(Section::Tasks { feature: parts[1].clone() })
            } else {
                None
            }
        } else {
            None
        }
    } else if parts.len() == 5 {
        if parts[0] == String::from_str("feature") && parts[2] == String::from_str("target") {
            if parts[4] == String::from_str("dependencies") {
                Some(
                    Section::Deps {
                        feature: parts[1].clone(),
                        kind: SpecKind::Conda,
                        platform: Some(parts[3].clone()),
                    },
                )
            } else if parts[4] == String::from_str("pypi-dependencies") {
                Some(
                    Section::Deps {
                        feature: parts[1].clone(),
                        kind: SpecKind::Pypi,
                        platform: Some(parts[3].clone()),
                    },
                )
            } else {
                None
            }
        } else {
            None
        }
    } else {
        None
    }
    }
}

/// The offset of the first equals sign, or the length when there is none.
pub open spec fn eq_pos(s: Seq<u8>) -> int
    decreases s.len(),
{
    if s.len() == 0 || s[0] == 61 {
        0
    } else {
        1 + eq_pos(s.skip(1))
    }
}

proof fn lemma_eq_pos(s: Seq<u8>, i: int)
    requires
        0 <= i <= s.len(),
        forall|j: int| 0 <= j < i ==> #[trigger] s[j] != 61,
        i == s.len() || s[i] == 61,
    ensures
        eq_pos(s) == i,
    decreases s.len(),
{
    if s.len() == 0 {
    } else if i == 0 {
    } else {
        assert(forall|j: int| 0 <= j < i - 1 ==> #[trigger] s.skip(1)[j] != 61);
        if i - 1 < s.skip(1).len() {
            assert(s.skip(1)[i - 1] == s[i]);
        }
        lemma_eq_pos(s.skip(1), i - 1);
    }
}

/// Splits a `key = value` line at its first equals sign.
pub(crate) fn split_key_value(line: &Vec<u8>) -> (r: Option<(Vec<u8>, Vec<u8>)>)
    requires
        ascii_bytes(line@),
    ensures
        r is Some <==> eq_pos(line@) < line@.len(),
        r matches Some(kv) ==> kv.0@ == trimmed(line@.take(eq_pos(line@))) && kv.1@ == trimmed(
            line@.skip(eq_pos(line@) + 1),
        ),
        r matches Some(kv) ==> ascii_bytes(kv.0@) && ascii_bytes(kv.1@),
{
    let mut eq: usize = 0;
    let mut found = false;
    let mut k: usize = 0;
    while k < line.len()
        invariant
            k <= line@.len(),
            found ==> eq < k && line@[eq as int] == 61 && forall|j: int|
                0 <= j < eq ==> #[trigger] line@[j] != 61,
            !found ==> forall|j: int| 0 <= j < k ==> #[trigger] line@[j] != 61,
        decreases line@.len() - k,
    {
        if line[k] == 61 && !found {
            eq = k;
            found = true;
        }
        k += 1;
    }
    if !found {
        proof {
            lemma_eq_pos(line@, line@.len() as int);
        }
        return None;
    }
    proof {
        lemma_eq_pos(line@, eq as int);
    }
    let key = trim_bytes(&sub_bytes(line, 0, eq));
    let val = trim_bytes(&sub_bytes(line, eq + 1, line.len()));
    proof {
        assert(line@.subrange(0, eq as int) =~= line@.take(eq as int));
        assert(line@.subrange(eq as int + 1, line@.len() as int) =~= line@.skip(eq as int + 1));
    }
    Some((key, val))
}

/// Reads a dependency value: a quoted constraint, or an inline table with a
/// `path` (plus optional `editable`), `url`, or `git` (plus optional `rev`)
/// reference.
fn parse_dep_value(val: &Vec<u8>, kind: SpecKind) -> (r: Option<DependencySpec>)
    requires
        ascii_bytes(val@),
{
    if val.len() > 0 && val[0] == 34 {
        match parse_quoted(val) {
            Some(s) => match kind {
                SpecKind::Conda => Some(
                    DependencySpec::Conda { constraint: s, build: None, channel: None },
                ),
                SpecKind::Pypi => Some(DependencySpec::Pypi { constraint: s }),
            },
            None => None,
        }
    } else if val.len() > 0 && val[0] == 123 {
        let fields = match parse_inline_table(val) {
            Some(f) => f,
            None => {
                return None;
            },
        };
        let mut path: Option<String> = None;
        let mut url: Option<String> = None;
        let mut git: Option<String> = None;
        let mut rev: Option<String> = None;
        let mut version: Option<String> = None;
        let mut build: Option<String> = None;
        let mut channel: Option<String> = None;
        let mut editable = false;
        let mut i: usize = 0;
        while i < fields.len()
            invariant
                i <= fields@.len(),
            decreases fields@.len() - i,
        {
            let (k, v) = &fields[i];
            if *k == String::from_str("path") {
                match v {
                    TableVal::Str(s) => { path = Some(s.clone()); },
                    _ => { return None; },
                }
            } else if *k == String::from_str("url") {
                match v {
                    TableVal::Str(s) => { url = Some(s.clone()); },
                    _ => { return None; },
                }
            } else if *k == String::from_str("git") {
                match v {
                    TableVal::Str(s) => { git = Some(s.clone()); },
                    _ => { return None; },
                }
            } else if *k == String::from_str("rev") {
                match v {
                    TableVal::Str(s) => { rev = Some(s.clone()); },
                    _ => { return None; },
                }
            } else if *k == String::from_str("editable") {
                match v {
                    TableVal::Flag(b) => { editable = *b; },
                    _ => { return None; },
                }
            } else if *k == String::from_str("version") {
                match v {
                    TableVal::Str(s) => { version = Some(s.clone()); },
                    _ => { return None; },
                }
            } else if *k == String::from_str("build") {
                match v {
                    TableVal::Str(s) => { build = Some(s.clone()); },
                    _ => { return None; },
                }
            } else if *k == String::from_str("channel") {
                match v {
                    TableVal::Str(s) => { channel = Some(s.clone()); },
                    _ => { return None; },
                }
            } else {
                return None;
            }
            i += 1;
        }
        if version.is_some() || build.is_some() || channel.is_some() {
            if !matches!(kind, SpecKind::Conda) || path.is_some() || url.is_some() || git.is_some()
                || rev.is_some() || editable {
                return None;
            }
            let constraint = match version {
                Some(v) => v,
                None => String::from_str("*"),
            };
            return Some(DependencySpec::Conda { constraint, build, channel });
        }
        if !matches!(kind, SpecKind::Pypi) {
            return None;
        }
        match (path, url, git) {
            (Some(p), None, None) => Some(DependencySpec::Path { path: p, editable }),
            (None, Some(u), None) => {
                if editable || rev.is_some() {
                    None
                } else {
                    Some(DependencySpec::Url { url: u })
                }
            },
            (None, None, Some(g)) => {
                if editable {
                    None
                } else {
                    Some(DependencySpec::Git { git: g, rev })
                }
            },
            _ => None,
        }
    } else {
        None
    }
}

/// Reads an environment value: a feature-name array, or an inline table
/// with `features`, `solve-group` and `no-default-feature` fields.
fn parse_env_value(val: &Vec<u8>) -> (r: Option<(Vec<String>, Option<String>, bool)>)
    requires
        ascii_bytes(val@),
{
    if val.len() > 0 && val[0] == 91 {
        match parse_string_array(val) {
            Some(fs) => Some((fs, None, false)),
            None => None,
        }
    } else if val.len() > 0 && val[0] == 123 {
        let fields = match parse_inline_table(val) {
            Some(f) => f,
            None => {
                return None;
            },
        };
        let mut features: Vec<String> = Vec::new();
        let mut solve_group: Option<String> = None;
        let mut no_default = false;
        let mut i: usize = 0;
        while i < fields.len()
            invariant
                i <= fields@.len(),
            decreases fields@.len() - i,
        {
            let (k, v) = &fields[i];
            if *k == String::from_str("features") {
                match v {
                    TableVal::Arr(a) => { features = crate::model::clone_strings(a); },
                    _ => { return None; },
                }
            } else if *k == String::from_str("solve-group") {
                match v {
                    TableVal::Str(s) => { solve_group = Some(s.clone()); },
                    _ => { return None; },
                }
            } else if *k == String::from_str("no-default-feature") {
                match v {
                    TableVal::Flag(b) => { no_default = *b; },
                    _ => { return None; },
                }
            } else {
                return None;
            }
            i += 1;
        }
        Some((features, solve_group, no_default))
    } else {
        None
    }
}


/// The index of the feature named `name`, creating it when absent.
fn ensure_feature(features: &mut Vec<Feature>, name: &String) -> (r: usize)
    requires
        features_invariant(old(features)@),
    ensures
        features_invariant(final(features)@),
        r < final(features)@.len(),
        final(features)@[r as int].name@ == name@,
        forall|i: int|
            0 <= i < old(features)@.len() ==> #[trigger] final(features)@[i] == old(
                features,
            )@[i],
{
    let mut i: usize = 0;
    while i < features.len()
        invariant
            features_invariant(features@),
            features == old(features),
            i <= features@.len(),
            forall|j: int| 0 <= j < i ==> (#[trigger] features@[j]).name@ != name@,
        decreases features@.len() - i,
    {
        if features[i].name == *name {
            return i;
        }
        i += 1;
    }
    let f = Feature {
        name: name.clone(),
        platforms: None,
        channels: None,
        dependencies: DependencyStore::new(),
        pypi_dependencies: DependencyStore::new(),
        tasks: Vec::new(),
        extra: Vec::new(),
    };
    features.push(f);
    features.len() - 1
}

/// Records one dependency line in the named feature's store for `kind`,
/// scoped to `platform`.
fn add_parsed_dep(
    features: &mut Vec<Feature>,
    feature_name: &String,
    kind: SpecKind,
    platform: &Option<String>,
    key: &String,
    spec: &DependencySpec,
) -> (r: bool)
    requires
        features_invariant(old(features)@),
    ensures
        features_invariant(final(features)@),
{
    let idx = ensure_feature(features, feature_name);
    let ghost fs1 = features@;
    let mut f = features.remove(idx);
    let platforms: Vec<String> = match platform {
        Some(p) => {
            let mut v: Vec<String> = Vec::new();
            v.push(p.clone());
            v
        },
        None => Vec::new(),
    };
    let allowed = crate::model::clone_strings(&platforms);
    let res = match kind {
        SpecKind::Conda => f.dependencies.add(
            key,
            spec,
            &platforms,
            DependencyOverwriteBehavior::Overwrite,
            &allowed,
        ),
        SpecKind::Pypi => f.pypi_dependencies.add(
            key,
            spec,
            &platforms,
            DependencyOverwriteBehavior::Overwrite,
            &allowed,
        ),
    };
    features.insert(idx, f);
    proof {
        assert(features@ =~= fs1.update(idx as int, f));
        assert(f.name@ == fs1[idx as int].name@);
        assert(forall|i: int|
            0 <= i < features@.len() ==> (#[trigger] features@[i]).name@
                == fs1[i].name@);
        assert(unique_feature_names(features@));
        assert(forall|i: int|
            0 <= i < features@.len() ==> (#[trigger] features@[i]).dependencies.wf()
                && features@[i].pypi_dependencies.wf());
    }
    res.is_ok()
}

/// Records one task line in the named feature.
fn add_parsed_task(features: &mut Vec<Feature>, feature_name: &String, key: &String, val: String)
    requires
        features_invariant(old(features)@),
    ensures
        features_invariant(final(features)@),
{
    let idx = ensure_feature(features, feature_name);
    let ghost fs1 = features@;
    let mut f = features.remove(idx);
    f.tasks.push((key.clone(), val));
    features.insert(idx, f);
    proof {
        assert(features@ =~= fs1.update(idx as int, f));
        assert(forall|i: int|
            0 <= i < features@.len() ==> (#[trigger] features@[i]).name@ == fs1[i].name@);
        assert(unique_feature_names(features@));
        assert(forall|i: int|
            0 <= i < features@.len() ==> (#[trigger] features@[i]).dependencies.wf()
                && features@[i].pypi_dependencies.wf());
    }
}

/// Records a foreign key of the named feature verbatim.
fn add_feature_extra(features: &mut Vec<Feature>, feature_name: &String, key: &String, val: String)
    requires
        features_invariant(old(features)@),
    ensures
        features_invariant(final(features)@),
{
    let idx = ensure_feature(features, feature_name);
    let ghost fs1 = features@;
    let mut f = features.remove(idx);
    f.extra.push((key.clone(), val));
    features.insert(idx, f);
    proof {
        assert(features@ =~= fs1.update(idx as int, f));
        assert(forall|i: int|
            0 <= i < features@.len() ==> (#[trigger] features@[i]).name@ == fs1[i].name@);
        assert(unique_feature_names(features@));
        assert(forall|i: int|
            0 <= i < features@.len() ==> (#[trigger] features@[i]).dependencies.wf()
                && features@[i].pypi_dependencies.wf());
    }
}

/// Sets the platform or channel override of the named feature.
fn set_feature_attr(
    features: &mut Vec<Feature>,
    feature_name: &String,
    is_platforms: bool,
    list: Vec<String>,
)
    requires
        features_invariant(old(features)@),
    ensures
        features_invariant(final(features)@),
{
    let idx = ensure_feature(features, feature_name);
    let ghost fs1 = features@;
    let mut f = features.remove(idx);
    if is_platforms {
        f.platforms = Some(list);
    } else {
        f.channels = Some(list);
    }
    features.insert(idx, f);
    proof {
        assert(features@ =~= fs1.update(idx as int, f));
        assert(forall|i: int|
            0 <= i < features@.len() ==> (#[trigger] features@[i]).name@ == fs1[i].name@);
        assert(unique_feature_names(features@));
        assert(forall|i: int|
            0 <= i < features@.len() ==> (#[trigger] features@[i]).dependencies.wf()
                && features@[i].pypi_dependencies.wf());
    }
}


/// Entries are nonempty and pairwise distinct, as the workspace invariant
/// asks of its channel and platform lists.
pub open spec fn valid_name_list(s: Seq<Seq<char>>) -> bool {
    &&& forall|i: int| 0 <= i < s.len() ==> (#[trigger] s[i]).len() > 0
    &&& forall|a: int, b: int| 0 <= a < b < s.len() ==> #[trigger] s[a] != #[trigger] s[b]
}

fn check_name_list(v: &Vec<String>) -> (r: bool)
    ensures
        r == valid_name_list(crate::deps::strs_view(v@)),
{
    let ghost sv = crate::deps::strs_view(v@);
    proof {
        assert(forall|i: int| 0 <= i < v@.len() ==> #[trigger] sv[i] == v@[i]@);
    }
    let mut i: usize = 0;
    while i < v.len()
        invariant
            sv == crate::deps::strs_view(v@),
            forall|j: int| 0 <= j < v@.len() ==> #[trigger] sv[j] == v@[j]@,
            i <= v@.len(),
            forall|j: int| 0 <= j < i ==> (#[trigger] sv[j]).len() > 0,
            forall|a: int, b: int| 0 <= a < b < i ==> #[trigger] sv[a] != #[trigger] sv[b],
        decreases v@.len() - i,
    {
        if v[i].as_str().is_empty() {
            assert(sv[i as int].len() == 0);
            return false;
        }
        let mut j: usize = 0;
        while j < i
            invariant
                sv == crate::deps::strs_view(v@),
                forall|jj: int| 0 <= jj < v@.len() ==> #[trigger] sv[jj] == v@[jj]@,
                i < v@.len(),
                j <= i,
                forall|jj: int| 0 <= jj < j ==> #[trigger] sv[jj] != sv[i as int],
            decreases i - j,
        {
            if v[j] == v[i] {
                assert(sv[j as int] == sv[i as int]);
                return false;
            }
            j += 1;
        }
        i += 1;
    }
    true
}

fn env_name_taken(envs: &Vec<EnvironmentDef>, name: &String) -> (r: bool)
    ensures
        r == exists|i: int|
            0 <= i < envs@.len() && (#[trigger] envs@[i]).name@ == name@,
{
    let mut i: usize = 0;
    while i < envs.len()
        invariant
            i <= envs@.len(),
            forall|j: int| 0 <= j < i ==> (#[trigger] envs@[j]).name@ != name@,
        decreases envs@.len() - i,
    {
        if envs[i].name == *name {
            return true;
        }
        i += 1;
    }
    false
}

/// The workspace fields a document's lines declare, scanned in order: a
/// key line inside the workspace section with a well-formed value sets the
/// respective field, any other key there is collected as a preserved
/// foreign pair, and everything else leaves the state.
pub struct WsScan {
    pub name: Option<Seq<char>>,
    pub ver: Option<Seq<char>>,
    pub chans: Seq<Seq<char>>,
    pub plats: Seq<Seq<char>>,
    pub extra: Seq<(Seq<char>, Seq<char>)>,
}

pub open spec fn ws_scan(lines: Seq<Seq<u8>>, in_ws: bool, acc: WsScan) -> WsScan
    decreases lines.len(),
{
    if lines.len() == 0 {
        acc
    } else {
        let t = trimmed(lines[0]);
        let rest = lines.skip(1);
        if t.len() == 0 || t[0] == 35 {
            ws_scan(rest, in_ws, acc)
        } else if t[0] == 91 {
            ws_scan(rest, ws_header(t), acc)
        } else if in_ws && eq_pos(t) < t.len() {
            let k = crate::text::char_view(trimmed(t.take(eq_pos(t))));
            let v = trimmed(t.skip(eq_pos(t) + 1));
            if k == "name"@ && quoted_bytes(v) && v.len() > 2 {
                ws_scan(
                    rest,
                    in_ws,
                    WsScan {
                        name: Some(crate::text::char_view(v.subrange(1, v.len() - 1))),
                        ..acc
                    },
                )
            } else if k == "pixi-version"@ && quoted_bytes(v) {
                ws_scan(
                    rest,
                    in_ws,
                    WsScan {
                        ver: Some(crate::text::char_view(v.subrange(1, v.len() - 1))),
                        ..acc
                    },
                )
            } else if k == "channels"@ && parse_array_spec(v) is Some {
                ws_scan(rest, in_ws, WsScan { chans: parse_array_spec(v)->0, ..acc })
            } else if k == "platforms"@ && parse_array_spec(v) is Some {
                ws_scan(rest, in_ws, WsScan { plats: parse_array_spec(v)->0, ..acc })
            } else if k == "name"@ || k == "pixi-version"@ || k == "channels"@ || k
                == "platforms"@ {
                ws_scan(rest, in_ws, acc)
            } else {
                ws_scan(
                    rest,
                    in_ws,
                    WsScan {
                        extra: acc.extra.push((k, crate::text::char_view(v))),
                        ..acc
                    },
                )
            }
        } else {
            ws_scan(rest, in_ws, acc)
        }
    }
}

/// The empty scan state.
pub open spec fn ws_scan_init() -> WsScan {
    WsScan {
        name: None,
        ver: None,
        chans: Seq::empty(),
        plats: Seq::empty(),
        extra: Seq::empty(),
    }
}

/// The views of preserved key/value pairs.
pub open spec fn pairs_view(s: Seq<(String, String)>) -> Seq<(Seq<char>, Seq<char>)> {
    s.map_values(|p: (String, String)| (p.0@, p.1@))
}

/// Parses a manifest document into the typed graph. The version gate runs
/// as soon as the workspace section closes and short-circuits everything
/// after it. On success the graph is well-formed, the workspace names a
/// project and lists nonempty, duplicate-free channels and platforms, and a
/// declared `pixi-version` requirement is one that the running tool
/// satisfies.
pub fn parse(text: &str) -> (r: Result<Manifest, ManifestError>)
    ensures
        !text.is_ascii() ==> r is Err,
        r matches Ok(m) ==> m.wf() && m.workspace.name@.len() > 0 && valid_name_list(
            crate::deps::strs_view(m.workspace.channels@),
        ) && valid_name_list(crate::deps::strs_view(m.workspace.platforms@)),
        r matches Ok(m) ==> ({
            let scan = ws_scan(lines_of(crate::text::byte_view(text@)), false, ws_scan_init());
            &&& scan.name == Some(m.workspace.name@)
            &&& scan.ver == crate::deps::opt_view(m.workspace.pixi_version)
            &&& scan.chans == crate::deps::strs_view(m.workspace.channels@)
            &&& scan.plats == crate::deps::strs_view(m.workspace.platforms@)
            &&& scan.extra == pairs_view(m.workspace.extra@)
        }),
        r matches Ok(m) ==> (crate::version::version_parses(crate::version::PIXI_VERSION@)
            ==> match m.workspace.pixi_version {
            Some(req) => crate::version::version_req_parses(req@)
                && crate::version::version_satisfies(req@, crate::version::PIXI_VERSION@),
            None => true,
        }),
        r matches Err(e) ==> match e {
            ManifestError::MalformedDocument { .. } => true,
            ManifestError::InvalidSpecification { .. } => true,
            ManifestError::UnknownFeature { .. } => true,
            ManifestError::InvalidVersionRequirement { .. } => true,
            ManifestError::VersionMismatch { .. } => true,
            _ => false,
        },
        crate::version::version_parses(crate::version::PIXI_VERSION@) ==> match r {
            Err(ManifestError::InvalidVersionRequirement { requirement }) => {
                !crate::version::version_req_parses(requirement@)
            },
            Err(ManifestError::VersionMismatch { requirement, running }) => {
                &&& crate::version::version_req_parses(requirement@)
                &&& !crate::version::version_satisfies(
                    requirement@,
                    crate::version::PIXI_VERSION@,
                )
                &&& running@ == crate::version::PIXI_VERSION@
            },
            _ => true,
        },
{
    let bytes = match str_to_ascii(text) {
        Some(b) => b,
        None => {
            return Err(
                ManifestError::MalformedDocument {
                    line: 0,
                    section: String::from_str("document"),
                },
            );
        },
    };
    let lines = split_lines(&bytes);
    let mut ws_name: Option<String> = None;
    let mut channels: Vec<String> = Vec::new();
    let mut platforms: Vec<String> = Vec::new();
    let mut pixi_version: Option<String> = None;
    let mut extra: Vec<(String, String)> = Vec::new();
    let mut features: Vec<Feature> = Vec::new();
    features.push(
        Feature {
            name: String::from_str("default"),
            platforms: None,
            channels: None,
            dependencies: DependencyStore::new(),
            pypi_dependencies: DependencyStore::new(),
            tasks: Vec::new(),
            extra: Vec::new(),
        },
    );
    let mut environments: Vec<EnvironmentDef> = Vec::new();
    let mut foreign: Vec<ForeignSection> = Vec::new();
    let mut section = Section::Preamble;
    let ghost lv = vecs_view(lines@);
    let ghost scan_full = ws_scan(lv, false, ws_scan_init());
    let mut li: usize = 0;
    proof {
        assert(lv.skip(0) =~= lv);
        assert(crate::deps::strs_view(channels@) =~= Seq::<Seq<char>>::empty());
        assert(crate::deps::strs_view(platforms@) =~= Seq::<Seq<char>>::empty());
        assert(pairs_view(extra@) =~= Seq::<(Seq<char>, Seq<char>)>::empty());
    }
    while li < lines.len()
        invariant
            features_invariant(features@),
            unique_environment_names(environments@),
            li <= lines@.len(),
            forall|i: int| 0 <= i < lines@.len() ==> ascii_bytes((#[trigger] lines@[i])@),
            ws_name matches Some(n) ==> n@.len() > 0,
            valid_name_list(crate::deps::strs_view(channels@)),
            valid_name_list(crate::deps::strs_view(platforms@)),
            section is Foreign ==> foreign@.len() > 0,
            lv == vecs_view(lines@),
            scan_full == ws_scan(
                lv.skip(li as int),
                section is Workspace,
                WsScan {
                    name: crate::deps::opt_view(ws_name),
                    ver: crate::deps::opt_view(pixi_version),
                    chans: crate::deps::strs_view(channels@),
                    plats: crate::deps::strs_view(platforms@),
                    extra: pairs_view(extra@),
                },
            ),
        decreases lines@.len() - li,
    {
        proof {
            assert(lv.skip(li as int)[0] == lv[li as int]);
            assert(lv[li as int] == lines@[li as int]@);
            assert(lv.skip(li as int).skip(1) =~= lv.skip(li as int + 1));
        }
        let line = trim_bytes(&lines[li]);
        li += 1;
        if line.len() == 0 || line[0] == 35 {
            continue;
        }
        if line[0] == 91 {
            if matches!(section, Section::Workspace) {
                match check_pixi_version(&pixi_version) {
                    Err(e) => {
                        return Err(e);
                    },
                    Ok(()) => {},
                }
            }
            if line[line.len() - 1] != 93 {
                return Err(
                    ManifestError::MalformedDocument {
                        line: li,
                        section: String::from_str("header"),
                    },
                );
            }
            match header_section(&line) {
                Some(s) => {
                    section = s;
                    proof {
                        assert(line@ == trimmed(lv[li - 1]));
                        assert((section is Workspace) == ws_header(trimmed(lv[li - 1])));
                    }
                },
                None => {
                    proof {
                        assert(line@ == trimmed(lv[li - 1]));
                        assert(!ws_header(trimmed(lv[li - 1])));
                    }
                    foreign.push(
                        ForeignSection { header: string_from_ascii(line), lines: Vec::new() },
                    );
                    section = Section::Foreign;
                },
            }
            continue;
        }
        if matches!(section, Section::Foreign) {
            let mut fs = match foreign.pop() {
                Some(f) => f,
                None => {
                    return Err(
                        ManifestError::MalformedDocument {
                            line: li,
                            section: String::from_str("header"),
                        },
                    );
                },
            };
            fs.lines.push(string_from_ascii(line));
            foreign.push(fs);
            continue;
        }
        let (key_b, val_b) = match split_key_value(&line) {
            Some(kv) => kv,
            None => {
                return Err(
                    ManifestError::MalformedDocument {
                        line: li,
                        section: String::from_str("key"),
                    },
                );
            },
        };
        let key = string_from_ascii(key_b);
        proof {
            let t = trimmed(lv[li - 1]);
            assert(line@ == t);
            assert(eq_pos(t) < t.len());
            assert(key@ == crate::text::char_view(trimmed(t.take(eq_pos(t)))));
            assert(val_b@ == trimmed(t.skip(eq_pos(t) + 1)));
        }
        match &section {
            Section::Foreign => {},
            Section::Preamble => {
                return Err(
                    ManifestError::MalformedDocument {
                        line: li,
                        section: String::from_str("preamble"),
                    },
                );
            },
            Section::Workspace => {
                if key == String::from_str("name") {
                    match parse_quoted(&val_b) {
                        Some(s) => {
                            if s.as_str().is_empty() {
                                return Err(
                                    ManifestError::MalformedDocument {
                                        line: li,
                                        section: String::from_str("workspace"),
                                    },
                                );
                            }
                            ws_name = Some(s);
                        },
                        None => {
                            return Err(
                                ManifestError::MalformedDocument {
                                    line: li,
                                    section: String::from_str("workspace"),
                                },
                            );
                        },
                    }
                } else if key == String::from_str("pixi-version") {
                    match parse_quoted(&val_b) {
                        Some(s) => {
                            pixi_version = Some(s);
                        },
                        None => {
                            return Err(
                                ManifestError::MalformedDocument {
                                    line: li,
                                    section: String::from_str("workspace"),
                                },
                            );
                        },
                    }
                } else if key == String::from_str("channels") {
                    match parse_string_array(&val_b) {
                        Some(v) => {
                            if !check_name_list(&v) {
                                return Err(
                                    ManifestError::MalformedDocument {
                                        line: li,
                                        section: String::from_str("workspace"),
                                    },
                                );
                            }
                            channels = v;
                        },
                        None => {
                            return Err(
                                ManifestError::MalformedDocument {
                                    line: li,
                                    section: String::from_str("workspace"),
                                },
                            );
                        },
                    }
                } else if key == String::from_str("platforms") {
                    match parse_string_array(&val_b) {
                        Some(v) => {
                            if !check_name_list(&v) {
                                return Err(
                                    ManifestError::MalformedDocument {
                                        line: li,
                                        section: String::from_str("workspace"),
                                    },
                                );
                            }
                            platforms = v;
                        },
                        None => {
                            return Err(
                                ManifestError::MalformedDocument {
                                    line: li,
                                    section: String::from_str("workspace"),
                                },
                            );
                        },
                    }
                } else {
                    let ghost ev = pairs_view(extra@);
                    let ghost kv = key@;
                    extra.push((key, string_from_ascii(val_b)));
                    proof {
                        assert(forall|j: int|
                            0 <= j < extra@.len() ==> #[trigger] pairs_view(extra@)[j] == (
                            extra@[j].0@,
                            extra@[j].1@,
                        ));
                        assert(pairs_view(extra@) =~= ev.push(
                            (kv, crate::text::char_view(val_b@)),
                        ));
                    }
                }
            },
            Section::Deps { feature, kind, platform } => {
                let nkey = match normalize_package_name(key.as_str()) {
                    Some(n) => n,
                    None => {
                        return Err(ManifestError::InvalidSpecification { raw: key });
                    },
                };
                let spec = match parse_dep_value(&val_b, *kind) {
                    Some(s) => s,
                    None => {
                        return Err(
                            ManifestError::InvalidSpecification { raw: string_from_ascii(val_b) },
                        );
                    },
                };
                let fname = feature.clone();
                if !add_parsed_dep(&mut features, &fname, *kind, platform, &nkey, &spec) {
                    return Err(
                        ManifestError::MalformedDocument {
                            line: li,
                            section: String::from_str("dependencies"),
                        },
                    );
                }
            },
            Section::Tasks { feature } => {
                let fname = feature.clone();
                add_parsed_task(&mut features, &fname, &key, string_from_ascii(val_b));
            },
            Section::FeatureAttrs { feature } => {
                let fname = feature.clone();
                if key == String::from_str("platforms") {
                    match parse_string_array(&val_b) {
                        Some(v) => {
                            set_feature_attr(&mut features, &fname, true, v);
                        },
                        None => {
                            return Err(
                                ManifestError::MalformedDocument {
                                    line: li,
                                    section: String::from_str("feature"),
                                },
                            );
                        },
                    }
                } else if key == String::from_str("channels") {
                    match parse_string_array(&val_b) {
                        Some(v) => {
                            set_feature_attr(&mut features, &fname, false, v);
                        },
                        None => {
                            return Err(
                                ManifestError::MalformedDocument {
                                    line: li,
                                    section: String::from_str("feature"),
                                },
                            );
                        },
                    }
                } else {
                    add_feature_extra(&mut features, &fname, &key, string_from_ascii(val_b));
                }
            },
            Section::Environments => {
                let (fs, sg, nd) = match parse_env_value(&val_b) {
                    Some(t) => t,
                    None => {
                        return Err(
                            ManifestError::MalformedDocument {
                                line: li,
                                section: String::from_str("environments"),
                            },
                        );
                    },
                };
                if env_name_taken(&environments, &key) {
                    return Err(
                        ManifestError::MalformedDocument {
                            line: li,
                            section: String::from_str("environments"),
                        },
                    );
                }
                environments.push(
                    EnvironmentDef {
                        name: key,
                        features: fs,
                        solve_group: sg,
                        no_default_feature: nd,
                    },
                );
            },
        }
    }
    proof {
        assert(lv.skip(lv.len() as int) =~= Seq::<Seq<u8>>::empty());
    }
    match check_pixi_version(&pixi_version) {
        Err(e) => {
            return Err(e);
        },
        Ok(()) => {},
    }
    let ws_name = match ws_name {
        Some(n) => n,
        None => {
            return Err(
                ManifestError::MalformedDocument {
                    line: 0,
                    section: String::from_str("workspace"),
                },
            );
        },
    };
    let default_name = String::from_str("default");
    if !env_name_taken(&environments, &default_name) {
        environments.insert(
            0,
            EnvironmentDef {
                name: default_name,
                features: Vec::new(),
                solve_group: None,
                no_default_feature: false,
            },
        );
        proof {
            assert(forall|i: int|
                1 <= i < environments@.len() ==> (#[trigger] environments@[i]).name@
                    != environments@[0].name@);
            assert(unique_environment_names(environments@));
        }
    }
    let manifest = Manifest {
        workspace: Workspace {
            name: ws_name,
            channels: channels,
            platforms: platforms,
            pixi_version: pixi_version,
            extra: extra,
        },
        features: features,
        environments: environments,
        foreign: foreign,
    };
    let mut e: usize = 0;
    while e < manifest.environments.len()
        invariant
            features_invariant(manifest.features@),
            unique_environment_names(manifest.environments@),
            e <= manifest.environments@.len(),
            forall|ee: int|
                0 <= ee < e ==> all_features_exist(
                    manifest,
                    env_feature_names(#[trigger] manifest.environments@[ee]),
                ),
        decreases manifest.environments@.len() - e,
    {
        let names = crate::model::effective_feature_list(&manifest.environments[e]);
        let ghost namesv = crate::deps::strs_view(names@);
        let mut k: usize = 0;
        while k < names.len()
            invariant
                features_invariant(manifest.features@),
                namesv == crate::deps::strs_view(names@),
                k <= names@.len(),
                forall|kk: int| 0 <= kk < k ==> feature_exists(manifest, #[trigger] namesv[kk]),
            decreases names@.len() - k,
        {
            if manifest.find_feature(&names[k]).is_none() {
                return Err(ManifestError::UnknownFeature { feature: names[k].clone() });
            }
            assert(namesv[k as int] == names@[k as int]@);
            k += 1;
        }
        assert(all_features_exist(manifest, namesv));
        e += 1;
    }
    proof {
        assert(manifest.wf());
    }
    Ok(manifest)
}

} // verus!
