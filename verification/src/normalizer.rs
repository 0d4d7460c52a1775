//! The specification normalizer: converts raw textual dependency entries
//! into structured specification values keyed by canonical package name.

use vstd::prelude::*;
use std::str::FromStr;
use crate::error::ManifestError;
use crate::deps::{DependencySpec, SpecModel};
use crate::names::{normalize_package_name, valid_name_bytes, normalized_bytes, is_name_byte};
use crate::text::{byte_view, char_view, str_to_ascii, string_from_ascii};

verus! {

/// Bytes this normalizer refuses anywhere in a conda entry: a bracket
/// section (`[`) or a trailing comment (`#`).
pub open spec fn is_refused_conda_byte(b: u8) -> bool {
    b == 91 || b == 35
}

/// A conda entry body this normalizer hands to the outside parser: ASCII,
/// with no colon (so no channel/namespace part left), bracket section or
/// comment. On such input the outside parser reads only a name, a version
/// constraint and a build constraint, and its result depends on the string
/// alone.
pub open spec fn plain_conda_input(s: Seq<char>) -> bool {
    &&& vstd::utf8::is_ascii_chars(s)
    &&& forall|i: int| 0 <= i < s.len() ==> #[trigger] byte_view(s)[i] != 58 && byte_view(s)[i]
        != 91 && byte_view(s)[i] != 35
}

/// The offset of the first `::`, or the length when there is none.
pub open spec fn dcolon_pos(s: Seq<u8>) -> int
    decreases s.len(),
{
    if s.len() < 2 {
        s.len() as int
    } else if s[0] == 58 && s[1] == 58 {
        0
    } else {
        1 + dcolon_pos(s.skip(1))
    }
}

proof fn lemma_dcolon_found(s: Seq<u8>, i: int)
    requires
        0 <= i,
        i + 1 < s.len(),
        s[i] == 58 && s[i + 1] == 58,
        forall|j: int| 0 <= j < i ==> !(#[trigger] s[j] == 58 && s[j + 1] == 58),
    ensures
        dcolon_pos(s) == i,
    decreases s.len(),
{
    if i == 0 {
    } else {
        assert(!(s[0] == 58 && s[1] == 58));
        assert(forall|j: int| 0 <= j < s.skip(1).len() ==> #[trigger] s.skip(1)[j] == s[j + 1]);
        lemma_dcolon_found(s.skip(1), i - 1);
    }
}

proof fn lemma_dcolon_none(s: Seq<u8>)
    requires
        forall|j: int| 0 <= j < s.len() - 1 ==> !(#[trigger] s[j] == 58 && s[j + 1] == 58),
    ensures
        dcolon_pos(s) == s.len(),
    decreases s.len(),
{
    if s.len() >= 2 {
        assert(!(s[0] == 58 && s[1] == 58));
        assert(forall|j: int| 0 <= j < s.skip(1).len() ==> #[trigger] s.skip(1)[j] == s[j + 1]);
        lemma_dcolon_none(s.skip(1));
    }
}

/// The channel override written before `::`, trimmed, when one is written.
pub open spec fn conda_channel_of(s: Seq<u8>) -> Option<Seq<u8>> {
    if dcolon_pos(s) < s.len() {
        Some(crate::parse::trimmed(s.take(dcolon_pos(s))))
    } else {
        None
    }
}

/// The entry after its channel override, when one is written; the whole
/// entry otherwise.
pub open spec fn conda_body_of(s: Seq<u8>) -> Seq<u8> {
    if dcolon_pos(s) < s.len() {
        s.skip(dcolon_pos(s) + 2)
    } else {
        s
    }
}

/// Whether a plain conda entry body is a well-formed match specification
/// with an exact package name.
pub uninterp spec fn conda_spec_ok(s: Seq<char>) -> bool;

/// The exact package name written in a well-formed plain conda entry body.
pub uninterp spec fn conda_spec_name(s: Seq<char>) -> Seq<char>;

/// The canonical text of the version constraint of a well-formed plain
/// conda entry body; `*` when none is written.
pub uninterp spec fn conda_spec_constraint(s: Seq<char>) -> Seq<char>;

/// The canonical text of the build constraint of a well-formed plain conda
/// entry body, when one is written.
pub uninterp spec fn conda_spec_build(s: Seq<char>) -> Option<Seq<char>>;

/// Relies on `rattler_conda_types::MatchSpec::from_str` (strict), taking
/// the name through `PackageName::as_source` and the version and build
/// constraints through their canonical renderings. The `requires` keeps out
/// colon, bracket and comment syntax, whose handling may read the process's
/// working directory; on the remaining inputs every result depends on the
/// raw string alone.
#[verifier::external_body]
fn parse_match_spec(raw: &str) -> (r: Option<(String, String, Option<String>)>)
    requires
        plain_conda_input(raw@),
    ensures
        r is Some <==> conda_spec_ok(raw@),
        r matches Some(p) ==> p.0@ == conda_spec_name(raw@) && p.1@ == conda_spec_constraint(
            raw@,
        ) && crate::deps::opt_view(p.2) == conda_spec_build(raw@),
{
    let spec = rattler_conda_types::MatchSpec::from_str(
        raw,
        rattler_conda_types::ParseStrictness::Strict,
    ).ok()?;
    let name = spec.name.as_exact()?;
    let source = name.as_source().to_string();
    let constraint = match &spec.version {
        Some(v) => v.to_string(),
        None => "*".to_string(),
    };
    let build = spec.build.as_ref().map(|b| b.to_string());
    Some((source, constraint, build))
}

/// Parses a raw conda entry into its canonical store key and a conda
/// specification value holding its version and build constraints and its
/// channel override (the text before `::`, kept verbatim). Fails with
/// `InvalidSpecification`, carrying the raw text, exactly when the entry is
/// not a `[channel::]name[ version[ build]]` match specification with a
/// valid package name: bracket sections, comments and namespace colons are
/// rejected rather than dropped.
pub fn normalize_conda_spec(raw: &str) -> (r: Result<(String, DependencySpec), ManifestError>)
    ensures
        ({
            let bytes = byte_view(raw@);
            let body = char_view(conda_body_of(bytes));
            &&& (r is Ok <==> (raw.is_ascii() && (forall|i: int|
                0 <= i < bytes.len() ==> !is_refused_conda_byte(#[trigger] bytes[i])) && (match
                conda_channel_of(bytes) {
                Some(c) => c.len() > 0,
                None => true,
            }) && plain_conda_input(body) && conda_spec_ok(body) && vstd::utf8::is_ascii_chars(
                conda_spec_name(body),
            ) && valid_name_bytes(byte_view(conda_spec_name(body)))))
            &&& (r matches Ok(p) ==> p.0@ == char_view(
                normalized_bytes(byte_view(conda_spec_name(body))),
            ) && (p.1@ matches SpecModel::Conda { constraint, build, channel } && constraint
                == conda_spec_constraint(body) && build == conda_spec_build(body) && channel
                == (match conda_channel_of(bytes) {
                Some(c) => Some(char_view(c)),
                None => None,
            })))
        }),
        r matches Err(e) ==> e matches ManifestError::InvalidSpecification { raw: t } && t@
            == raw@,
{
    let bytes = match str_to_ascii(raw) {
        Some(b) => b,
        None => {
            return Err(
                ManifestError::InvalidSpecification {
                    raw: <String as vstd::string::StringExecFns>::from_str(raw),
                },
            );
        },
    };
    // refuse bracket sections and comments anywhere
    let mut i: usize = 0;
    while i < bytes.len()
        invariant
            bytes@ == byte_view(raw@),
            i <= bytes@.len(),
            forall|j: int| 0 <= j < i ==> !is_refused_conda_byte(#[trigger] bytes@[j]),
        decreases bytes@.len() - i,
    {
        if bytes[i] == 91 || bytes[i] == 35 {
            return Err(
                ManifestError::InvalidSpecification {
                    raw: <String as vstd::string::StringExecFns>::from_str(raw),
                },
            );
        }
        i += 1;
    }
    // split off a channel override at the first `::`
    let mut d: usize = 0;
    let mut found = false;
    let mut k: usize = 0;
    let lim = if bytes.len() == 0 {
        0
    } else {
        bytes.len() - 1
    };
    while k < lim
        invariant
            bytes@ == byte_view(raw@),
            bytes@.len() > 0 ==> lim == bytes@.len() - 1,
            bytes@.len() == 0 ==> lim == 0,
            k <= lim,
            found ==> d + 1 < bytes@.len() && bytes@[d as int] == 58 && bytes@[d + 1] == 58
                && forall|j: int|
                0 <= j < d ==> !(#[trigger] bytes@[j] == 58 && bytes@[j + 1] == 58),
            !found ==> forall|j: int|
                0 <= j < k ==> !(#[trigger] bytes@[j] == 58 && bytes@[j + 1] == 58),
        decreases bytes@.len() - k,
    {
        if !found && bytes[k] == 58 && bytes[k + 1] == 58 {
            d = k;
            found = true;
        }
        k += 1;
    }
    proof {
        if found {
            lemma_dcolon_found(bytes@, d as int);
        } else {
            lemma_dcolon_none(bytes@);
        }
    }
    let (channel, body_vec) = if found {
        let ch = crate::parse::trim_bytes(&crate::parse::sub_bytes(&bytes, 0, d));
        proof {
            assert(bytes@.subrange(0, d as int) =~= bytes@.take(d as int));
        }
        if ch.len() == 0 {
            return Err(
                ManifestError::InvalidSpecification {
                    raw: <String as vstd::string::StringExecFns>::from_str(raw),
                },
            );
        }
        proof {
            crate::text::lemma_char_byte_roundtrip(ch@);
        }
        (Some(string_from_ascii(ch)), crate::parse::sub_bytes(&bytes, d + 2, bytes.len()))
    } else {
        (None, crate::parse::sub_bytes(&bytes, 0, bytes.len()))
    };
    proof {
        assert(body_vec@ =~= conda_body_of(bytes@));
        crate::text::lemma_char_byte_roundtrip(body_vec@);
    }
    // refuse namespace or second channel colons in the body
    let mut i: usize = 0;
    while i < body_vec.len()
        invariant
            body_vec@ == conda_body_of(byte_view(raw@)),
            crate::text::ascii_bytes(body_vec@),
            i <= body_vec@.len(),
            forall|j: int| 0 <= j < i ==> #[trigger] body_vec@[j] != 58,
        decreases body_vec@.len() - i,
    {
        if body_vec[i] == 58 {
            proof {
                crate::text::lemma_char_byte_roundtrip(body_vec@);
                assert(!plain_conda_input(char_view(body_vec@)));
            }
            return Err(
                ManifestError::InvalidSpecification {
                    raw: <String as vstd::string::StringExecFns>::from_str(raw),
                },
            );
        }
        i += 1;
    }
    proof {
        crate::text::lemma_char_byte_roundtrip(body_vec@);
        assert(plain_conda_input(char_view(body_vec@)));
    }
    let body_s = string_from_ascii(body_vec);
    match parse_match_spec(body_s.as_str()) {
        None => Err(
            ManifestError::InvalidSpecification {
                raw: <String as vstd::string::StringExecFns>::from_str(raw),
            },
        ),
        Some((name, constraint, build)) => {
            match normalize_package_name(name.as_str()) {
                None => Err(
                    ManifestError::InvalidSpecification {
                        raw: <String as vstd::string::StringExecFns>::from_str(raw),
                    },
                ),
                Some(key) => Ok((key, DependencySpec::Conda { constraint, build, channel })),
            }
        },
    }
}

/// The length of the leading run of package-name bytes.
pub open spec fn name_end(s: Seq<u8>) -> int
    decreases s.len(),
{
    if s.len() == 0 || !is_name_byte(s[0]) {
        0
    } else {
        1 + name_end(s.skip(1))
    }
}

proof fn lemma_name_end(s: Seq<u8>, i: int)
    requires
        0 <= i <= s.len(),
        forall|j: int| 0 <= j < i ==> is_name_byte(#[trigger] s[j]),
        i == s.len() || !is_name_byte(s[i]),
    ensures
        name_end(s) == i,
    decreases s.len(),
{
    if s.len() == 0 {
    } else if i == 0 {
    } else {
        assert(is_name_byte(s[0]));
        assert(forall|j: int| 0 <= j < i - 1 ==> is_name_byte(#[trigger] s.skip(1)[j]));
        if i - 1 < s.skip(1).len() {
            assert(s.skip(1)[i - 1] == s[i]);
        }
        lemma_name_end(s.skip(1), i - 1);
    }
}

/// Parses a raw PyPI-style requirement — a package name followed by
/// extras, version constraints or markers — into its canonical store key
/// and a PyPI specification value holding the rest verbatim. Fails with
/// `InvalidSpecification`, carrying the raw text, exactly when the leading
/// name is missing or not a valid package name.
pub fn normalize_pypi_spec(raw: &str) -> (r: Result<(String, DependencySpec), ManifestError>)
    ensures
        r is Ok <==> (raw.is_ascii() && valid_name_bytes(
            byte_view(raw@).take(name_end(byte_view(raw@))),
        ) && name_end(byte_view(raw@)) > 0),
        r matches Ok(p) ==> ({
            let bytes = byte_view(raw@);
            let e = name_end(bytes);
            &&& p.0@ == char_view(normalized_bytes(bytes.take(e)))
            &&& (p.1@ matches SpecModel::Pypi { constraint } && constraint == char_view(
                bytes.skip(e),
            ))
        }),
        r matches Err(e) ==> e matches ManifestError::InvalidSpecification { raw: t } && t@
            == raw@,
{
    let bytes = match str_to_ascii(raw) {
        Some(b) => b,
        None => {
            return Err(
                ManifestError::InvalidSpecification {
                    raw: <String as vstd::string::StringExecFns>::from_str(raw),
                },
            );
        },
    };
    let mut e: usize = 0;
    while e < bytes.len() && crate::names::is_name_byte_exec(bytes[e])
        invariant
            e <= bytes@.len(),
            forall|j: int| 0 <= j < e ==> is_name_byte(#[trigger] bytes@[j]),
        decreases bytes@.len() - e,
    {
        e += 1;
    }
    proof {
        lemma_name_end(bytes@, e as int);
    }
    if e == 0 {
        return Err(
            ManifestError::InvalidSpecification {
                raw: <String as vstd::string::StringExecFns>::from_str(raw),
            },
        );
    }
    let name_bytes = crate::parse::sub_bytes(&bytes, 0, e);
    let rest_bytes = crate::parse::sub_bytes(&bytes, e, bytes.len());
    proof {
        assert(name_bytes@ =~= byte_view(raw@).take(e as int));
        assert(rest_bytes@ =~= byte_view(raw@).skip(e as int));
    }
    proof {
        crate::text::lemma_char_byte_roundtrip(name_bytes@);
        crate::text::lemma_char_byte_roundtrip(rest_bytes@);
    }
    let name = string_from_ascii(name_bytes);
    match normalize_package_name(name.as_str()) {
        None => Err(
            ManifestError::InvalidSpecification {
                raw: <String as vstd::string::StringExecFns>::from_str(raw),
            },
        ),
        Some(key) => {
            let constraint = string_from_ascii(rest_bytes);
            Ok((key, DependencySpec::Pypi { constraint }))
        },
    }
}

} // verus!
