//! The dual-format adapter: lets the same configuration live embedded in a
//! host project document, without disturbing the rest of that document.

use vstd::prelude::*;
use crate::text::{str_to_ascii, string_from_ascii, ascii_bytes};
use crate::parse::{trim_bytes, split_key_value, trimmed, eq_pos};

verus! {

/// `n` occurs in `h` starting at `i`.
pub open spec fn contains_at(h: Seq<char>, n: Seq<char>, i: int) -> bool {
    0 <= i && i + n.len() <= h.len() && h.subrange(i, i + n.len()) == n
}

/// `n` occurs somewhere in `h`.
pub open spec fn text_contains(h: Seq<char>, n: Seq<char>) -> bool {
    exists|i: int| contains_at(h, n, i)
}

/// The opening of the embedded namespace's table header.
pub open spec fn pixi_marker() -> Seq<char> {
    "[tool.pixi"@
}

fn str_to_chars(s: &str) -> (r: Vec<char>)
    ensures
        r@ == s@,
{
    let n = s.unicode_len();
    let mut r: Vec<char> = Vec::new();
    let mut i: usize = 0;
    while i < n
        invariant
            n == s@.len(),
            i <= n,
            r@ == s@.take(i as int),
        decreases n - i,
    {
        r.push(s.get_char(i));
        assert(r@ =~= s@.take(i as int + 1));
        i += 1;
    }
    assert(s@.take(n as int) =~= s@);
    r
}

fn find_pattern(h: &Vec<char>, n: &Vec<char>) -> (r: bool)
    requires
        n@.len() >= 1,
    ensures
        r == text_contains(h@, n@),
{
    if h.len() < n.len() {
        proof {
            assert forall|i: int| !contains_at(h@, n@, i) by {}
        }
        return false;
    }
    let hlen = h.len();
    let mut i: usize = 0;
    while i <= h.len() - n.len()
        invariant
            hlen == h@.len(),
            n@.len() >= 1,
            h@.len() >= n@.len(),
            i <= h@.len() - n@.len() + 1,
            forall|k: int| 0 <= k < i ==> !contains_at(h@, n@, k),
        decreases h@.len() - n@.len() + 1 - i,
    {
        let mut j: usize = 0;
        let mut matches = true;
        while j < n.len()
            invariant
                hlen == h@.len(),
                n@.len() >= 1,
                h@.len() >= n@.len(),
                i <= h@.len() - n@.len(),
                j <= n@.len(),
                matches == (h@.subrange(i as int, i as int + j as int) =~= n@.take(j as int)),
            decreases n@.len() - j,
        {
            let same = h[i + j] == n[j];
            proof {
                assert(h@.subrange(i as int, i as int + j as int + 1).drop_last()
                    =~= h@.subrange(i as int, i as int + j as int));
                assert(n@.take(j as int + 1).drop_last() =~= n@.take(j as int));
                assert(h@.subrange(i as int, i as int + j as int + 1).last() == h@[i + j]);
                assert(n@.take(j as int + 1).last() == n@[j as int]);
            }
            if !same {
                matches = false;
                proof {
                    assert(h@.subrange(i as int, i as int + j as int + 1)[j as int] == h@[i + j]);
                    assert(n@.take(j as int + 1)[j as int] == n@[j as int]);
                }
            }
            proof {
                if matches {
                    assert(h@.subrange(i as int, i as int + j as int + 1) =~= n@.take(
                        j as int + 1,
                    ));
                } else {
                    assert(h@.subrange(i as int, i as int + j as int + 1) != n@.take(j as int + 1));
                }
            }
            j += 1;
        }
        if matches {
            proof {
                assert(n@.take(n@.len() as int) =~= n@);
                assert(contains_at(h@, n@, i as int));
            }
            return true;
        }
        proof {
            assert(n@.take(n@.len() as int) =~= n@);
            assert(!contains_at(h@, n@, i as int));
        }
        i += 1;
    }
    proof {
        assert forall|k: int| !contains_at(h@, n@, k) by {
            if 0 <= k && k + n@.len() <= h@.len() {
                assert(!contains_at(h@, n@, k));
            }
        }
    }
    false
}

/// Whether `needle` occurs in `haystack`.
pub fn contains_text(haystack: &str, needle: &str) -> (r: bool)
    ensures
        r == text_contains(haystack@, needle@),
{
    let n = str_to_chars(needle);
    if n.len() == 0 {
        proof {
            assert(haystack@.subrange(0, 0) =~= needle@);
            assert(contains_at(haystack@, needle@, 0));
        }
        return true;
    }
    let h = str_to_chars(haystack);
    find_pattern(&h, &n)
}

/// Whether the host document already holds the embedded `[tool.pixi`
/// namespace; true after one injection, which prevents a second one.
pub fn has_embedded_namespace(host: &str) -> (r: bool)
    ensures
        r == text_contains(host@, pixi_marker()),
{
    let h = str_to_chars(host);
    let marker = str_to_chars("[tool.pixi");
    proof {
        reveal_strlit("[tool.pixi");
    }
    find_pattern(&h, &marker)
}

/// Appends the embedded namespace to a host document that does not hold one
/// yet: the host text is kept unchanged, a `[tool.pixi.project]` table
/// header is opened, and `payload` follows verbatim. Returns `None`, and
/// changes nothing, when the namespace is already present.
pub fn inject_pixi_namespace(host: &str, payload: &str) -> (r: Option<String>)
    ensures
        r is None <==> text_contains(host@, pixi_marker()),
        r matches Some(t) ==> t@ == host@ + "\n[tool.pixi.project]\n"@ + payload@,
        r matches Some(t) ==> text_contains(t@, pixi_marker()),
{
    if has_embedded_namespace(host) {
        return None;
    }
    let mut out = <String as vstd::string::StringExecFns>::from_str(host);
    out.append("\n[tool.pixi.project]\n");
    out.append(payload);
    proof {
        reveal_strlit("[tool.pixi");
        reveal_strlit("\n[tool.pixi.project]\n");
        let t = out@;
        let l = host@.len() as int;
        assert(t.subrange(l + 1, l + 1 + 10) =~= pixi_marker());
        assert(contains_at(t, pixi_marker(), l + 1));
    }
    Some(out)
}


/// The header line that opens the host's optional-dependency section.
pub open spec fn extras_header() -> Seq<char> {
    "[project.optional-dependencies]"@
}

/// The names of ASCII byte sequences.
pub open spec fn pair_names(s: Seq<(String, Vec<String>)>) -> Seq<Seq<char>> {
    s.map_values(|p: (String, Vec<String>)| p.0@)
}

/// What one line of the host document contributes: the keys it yields and
/// whether the scan is inside the optional-dependency section afterwards.
pub open spec fn extras_line(line: Seq<u8>, in_section: bool) -> (Seq<Seq<char>>, bool) {
    let t = trimmed(line);
    if t.len() == 0 || t[0] == 35 {
        (Seq::empty(), in_section)
    } else if t[0] == 91 {
        (Seq::empty(), crate::text::char_view(t) == extras_header())
    } else if in_section && eq_pos(t) < t.len() {
        (seq![crate::text::char_view(trimmed(t.take(eq_pos(t))))], in_section)
    } else {
        (Seq::empty(), in_section)
    }
}

/// The key names of the optional-dependency section, scanning `s` line by
/// line with `cur` the line read so far.
pub open spec fn extras_scan(s: Seq<u8>, cur: Seq<u8>, in_section: bool) -> Seq<Seq<char>>
    decreases s.len(),
{
    if s.len() == 0 {
        extras_line(cur, in_section).0
    } else if s[0] == 10 {
        let step = extras_line(cur, in_section);
        step.0 + extras_scan(s.skip(1), Seq::empty(), step.1)
    } else {
        extras_scan(s.skip(1), cur.push(s[0]), in_section)
    }
}

/// The optional-dependency group names of an ASCII host document.
pub open spec fn extras_of(s: Seq<u8>) -> Seq<Seq<char>> {
    extras_scan(s, Seq::empty(), false)
}

// Handles one completed line: pushes its key, when it yields one, and
// updates the section flag.
fn extras_take_line(
    r: &mut Vec<(String, Vec<String>)>,
    cur: Vec<u8>,
    in_section: bool,
) -> (r2: bool)
    requires
        ascii_bytes(cur@),
    ensures
        pair_names(final(r)@) == pair_names(old(r)@) + extras_line(cur@, in_section).0,
        r2 == extras_line(cur@, in_section).1,
        forall|i: int|
            0 <= i < old(r)@.len() ==> #[trigger] final(r)@[i] == old(r)@[i],
        final(r)@.len() >= old(r)@.len(),
        forall|i: int|
            old(r)@.len() <= i < final(r)@.len() ==> (#[trigger] final(r)@[i]).1@.len() == 1
                && final(r)@[i].1@[0]@ == final(r)@[i].0@,
{
    let line = trim_bytes(&cur);
    if line.len() == 0 || line[0] == 35 {
        assert(pair_names(r@) =~= pair_names(r@) + extras_line(cur@, in_section).0);
        return in_section;
    }
    if line[0] == 91 {
        let header = string_from_ascii(line);
        assert(pair_names(r@) =~= pair_names(r@) + extras_line(cur@, in_section).0);
        return header == String::from_str("[project.optional-dependencies]");
    }
    if in_section {
        match split_key_value(&line) {
            Some((k, _v)) => {
                let name = string_from_ascii(k);
                let mut fs: Vec<String> = Vec::new();
                fs.push(name.clone());
                r.push((name, fs));
                proof {
                    assert(forall|i: int|
                        0 <= i < r@.len() ==> #[trigger] pair_names(r@)[i] == r@[i].0@);
                    assert(pair_names(r@) =~= pair_names(old(r)@) + extras_line(
                        cur@,
                        in_section,
                    ).0);
                }
            },
            None => {
                assert(pair_names(r@) =~= pair_names(r@) + extras_line(cur@, in_section).0);
            },
        }
    } else {
        assert(pair_names(r@) =~= pair_names(r@) + extras_line(cur@, in_section).0);
    }
    in_section
}

/// Derives one candidate environment per optional-dependency group of the
/// host document, in declaration order: each group yields an environment
/// named after it that composes the feature of the same name (beside the
/// implicit default feature), so that a caller can write them out sharing
/// one solve-group.
pub fn environments_from_extras(host: &str) -> (r: Vec<(String, Vec<String>)>)
    ensures
        host.is_ascii() ==> pair_names(r@) == extras_of(crate::text::byte_view(host@)),
        !host.is_ascii() ==> r@.len() == 0,
        forall|i: int| 0 <= i < r@.len() ==> (#[trigger] r@[i]).1@.len() == 1 && r@[i].1@[0]@
            == r@[i].0@,
{
    let mut r: Vec<(String, Vec<String>)> = Vec::new();
    let bytes = match str_to_ascii(host) {
        Some(b) => b,
        None => {
            return r;
        },
    };
    let ghost full = extras_of(bytes@);
    let mut cur: Vec<u8> = Vec::new();
    let mut in_section = false;
    let mut i: usize = 0;
    proof {
        assert(bytes@.skip(0) =~= bytes@);
        assert(pair_names(r@) =~= Seq::<Seq<char>>::empty());
    }
    while i < bytes.len()
        invariant
            ascii_bytes(bytes@),
            ascii_bytes(cur@),
            i <= bytes@.len(),
            full == pair_names(r@) + extras_scan(bytes@.skip(i as int), cur@, in_section),
            forall|j: int|
                0 <= j < r@.len() ==> (#[trigger] r@[j]).1@.len() == 1 && r@[j].1@[0]@
                    == r@[j].0@,
        decreases bytes@.len() - i,
    {
        proof {
            assert(bytes@.skip(i as int)[0] == bytes@[i as int]);
            assert(bytes@.skip(i as int).skip(1) =~= bytes@.skip(i as int + 1));
        }
        let b = bytes[i];
        if b == 10 {
            in_section = extras_take_line(&mut r, cur, in_section);
            cur = Vec::new();
        } else {
            cur.push(b);
        }
        i += 1;
    }
    proof {
        assert(bytes@.skip(bytes@.len() as int) =~= Seq::<u8>::empty());
    }
    let _ = extras_take_line(&mut r, cur, in_section);
    proof {
        assert(full =~= pair_names(r@));
    }
    r
}


/// The environment lines derived from the extra groups, each sharing
/// solve-group `default`.
pub open spec fn extras_env_lines(extras: Seq<(String, Vec<String>)>) -> Seq<char>
    decreases extras.len(),
{
    if extras.len() == 0 {
        Seq::empty()
    } else {
        extras_env_lines(extras.drop_last()) + extras.last().0@ + " = { features = "@
            + crate::serialize::array_text(crate::deps::strs_view(extras.last().1@))
            + ", solve-group = \"default\" }\n"@
    }
}

/// The text injected inside the embedded namespace: the project name,
/// channels and platforms; the package itself as an editable path
/// dependency; one environment per extra group beside the default one, all
/// sharing solve-group `default`; and an empty task table.
pub open spec fn injection_payload_text(
    name: Seq<char>,
    channels: Seq<Seq<char>>,
    platforms: Seq<Seq<char>>,
    extras: Seq<(String, Vec<String>)>,
) -> Seq<char> {
    "name = "@ + crate::serialize::quoted_text(name) + "\nchannels = "@
        + crate::serialize::array_text(channels) + "\nplatforms = "@
        + crate::serialize::array_text(platforms)
        + "\n\n[tool.pixi.pypi-dependencies]\n"@ + name
        + " = { path = \".\", editable = true }\n"@ + (if extras.len() == 0 {
        Seq::<char>::empty()
    } else {
        "\n[tool.pixi.environments]\ndefault = { features = [], solve-group = \"default\" }\n"@
            + extras_env_lines(extras)
    }) + "\n[tool.pixi.tasks]\n"@
}

/// Builds the payload that `inject_pixi_namespace` appends, exactly as
/// `injection_payload_text` states it.
pub fn pyproject_injection_payload(
    name: &String,
    channels: &Vec<String>,
    platforms: &Vec<String>,
    extras: &Vec<(String, Vec<String>)>,
) -> (r: String)
    ensures
        r@ == injection_payload_text(
            name@,
            crate::deps::strs_view(channels@),
            crate::deps::strs_view(platforms@),
            extras@,
        ),
{
    let mut out = String::new();
    out.append("name = ");
    crate::serialize::append_quoted(&mut out, name);
    out.append("\nchannels = ");
    crate::serialize::append_array(&mut out, channels);
    out.append("\nplatforms = ");
    crate::serialize::append_array(&mut out, platforms);
    out.append("\n\n[tool.pixi.pypi-dependencies]\n");
    out.append(name.as_str());
    out.append(" = { path = \".\", editable = true }\n");
    if extras.len() > 0 {
        out.append("\n[tool.pixi.environments]\ndefault = { features = [], solve-group = \"default\" }\n");
        let ghost b0 = out@;
        let mut i: usize = 0;
        while i < extras.len()
            invariant
                i <= extras@.len(),
                out@ == b0 + extras_env_lines(extras@.take(i as int)),
            decreases extras@.len() - i,
        {
            proof {
                assert(extras@.take(i as int + 1).drop_last() =~= extras@.take(i as int));
                assert(extras@.take(i as int + 1).last() == extras@[i as int]);
            }
            let (env, features) = &extras[i];
            out.append(env.as_str());
            out.append(" = { features = ");
            crate::serialize::append_array(&mut out, features);
            out.append(", solve-group = \"default\" }\n");
            assert(out@ =~= b0 + extras_env_lines(extras@.take(i as int + 1)));
            i += 1;
        }
        proof {
            assert(extras@.take(extras@.len() as int) =~= extras@);
        }
    }
    out.append("\n[tool.pixi.tasks]\n");
    proof {
        assert(out@ =~= injection_payload_text(
            name@,
            crate::deps::strs_view(channels@),
            crate::deps::strs_view(platforms@),
            extras@,
        ));
    }
    out
}

} // verus!
