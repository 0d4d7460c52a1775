//! The manifest serializer: renders the typed graph back to document text.
//! The exact text produced is pinned down by the `spec_*` functions beside
//! each renderer.

use vstd::prelude::*;
use crate::deps::{DependencyStore, SpecModel, StoreEntry, strs_view};
use crate::model::{Feature, EnvironmentDef, Manifest, ForeignSection, SpecKind};

verus! {

/// A double-quoted string.
pub open spec fn quoted_text(s: Seq<char>) -> Seq<char> {
    "\""@ + s + "\""@
}

pub open spec fn array_items_text(xs: Seq<Seq<char>>) -> Seq<char>
    decreases xs.len(),
{
    if xs.len() == 0 {
        Seq::empty()
    } else if xs.len() == 1 {
        quoted_text(xs[0])
    } else {
        array_items_text(xs.drop_last()) + ", "@ + quoted_text(xs.last())
    }
}

/// A `["a", "b"]` array of quoted strings.
pub open spec fn array_text(xs: Seq<Seq<char>>) -> Seq<char> {
    "["@ + array_items_text(xs) + "]"@
}

/// The right-hand side a specification is written as.
pub open spec fn spec_value_text(s: SpecModel) -> Seq<char> {
    match s {
        SpecModel::Conda { constraint, build, channel } => match (build, channel) {
            (None, None) => quoted_text(constraint),
            (build, channel) => "{ version = "@ + quoted_text(constraint) + (match build {
                Some(b) => ", build = "@ + quoted_text(b),
                None => Seq::<char>::empty(),
            }) + (match channel {
                Some(c) => ", channel = "@ + quoted_text(c),
                None => Seq::<char>::empty(),
            }) + " }"@,
        },
        SpecModel::Pypi { constraint } => quoted_text(constraint),
        SpecModel::Path { path, editable } => {
            if editable {
                "{ path = "@ + quoted_text(path) + ", editable = true }"@
            } else {
                "{ path = "@ + quoted_text(path) + " }"@
            }
        },
        SpecModel::Url { url } => "{ url = "@ + quoted_text(url) + " }"@,
        SpecModel::Git { git, rev } => {
            match rev {
                Some(r) => "{ git = "@ + quoted_text(git) + ", rev = "@ + quoted_text(r) + " }"@,
                None => "{ git = "@ + quoted_text(git) + " }"@,
            }
        },
    }
}

pub(crate) fn append_quoted(out: &mut String, s: &String)
    ensures
        final(out)@ == old(out)@ + quoted_text(s@),
{
    out.append("\"");
    out.append(s.as_str());
    out.append("\"");
}

pub(crate) fn append_array(out: &mut String, xs: &Vec<String>)
    ensures
        final(out)@ == old(out)@ + array_text(strs_view(xs@)),
{
    out.append("[");
    let ghost xv = strs_view(xs@);
    let mut i: usize = 0;
    while i < xs.len()
        invariant
            xv == strs_view(xs@),
            i <= xs@.len(),
            out@ == old(out)@ + "["@ + array_items_text(xv.take(i as int)),
        decreases xs@.len() - i,
    {
        if i > 0 {
            out.append(", ");
        }
        append_quoted(out, &xs[i]);
        proof {
            assert(xv[i as int] == xs@[i as int]@);
            assert(xv.take(i as int + 1).drop_last() =~= xv.take(i as int));
            assert(xv.take(i as int + 1).last() == xv[i as int]);
            if i == 0 {
                assert(array_items_text(xv.take(1)) == quoted_text(xv[0]));
                assert(out@ =~= old(out)@ + "["@ + array_items_text(xv.take(i as int + 1)));
            } else {
                assert(out@ =~= old(out)@ + "["@ + array_items_text(xv.take(i as int + 1)));
            }
        }
        i += 1;
    }
    out.append("]");
    proof {
        assert(xv.take(xv.len() as int) =~= xv);
        assert(out@ =~= old(out)@ + array_text(strs_view(xs@)));
    }
}

fn append_spec_value(out: &mut String, s: &crate::deps::DependencySpec)
    ensures
        final(out)@ == old(out)@ + spec_value_text(s@),
{
    match s {
        crate::deps::DependencySpec::Conda { constraint, build, channel } => {
            if build.is_none() && channel.is_none() {
                append_quoted(out, constraint);
            } else {
                out.append("{ version = ");
                append_quoted(out, constraint);
                match build {
                    Some(b) => {
                        out.append(", build = ");
                        append_quoted(out, b);
                    },
                    None => {},
                }
                match channel {
                    Some(c) => {
                        out.append(", channel = ");
                        append_quoted(out, c);
                    },
                    None => {},
                }
                out.append(" }");
            }
            assert(out@ =~= old(out)@ + spec_value_text(s@));
        },
        crate::deps::DependencySpec::Pypi { constraint } => {
            append_quoted(out, constraint);
        },
        crate::deps::DependencySpec::Path { path, editable } => {
            out.append("{ path = ");
            append_quoted(out, path);
            if *editable {
                out.append(", editable = true }");
            } else {
                out.append(" }");
            }
            assert(out@ =~= old(out)@ + spec_value_text(s@));
        },
        crate::deps::DependencySpec::Url { url } => {
            out.append("{ url = ");
            append_quoted(out, url);
            out.append(" }");
            assert(out@ =~= old(out)@ + spec_value_text(s@));
        },
        crate::deps::DependencySpec::Git { git, rev } => {
            out.append("{ git = ");
            append_quoted(out, git);
            match rev {
                Some(r) => {
                    out.append(", rev = ");
                    append_quoted(out, r);
                    out.append(" }");
                },
                None => {
                    out.append(" }");
                },
            }
            assert(out@ =~= old(out)@ + spec_value_text(s@));
        },
    }
    assert(out@ =~= old(out)@ + spec_value_text(s@));
}


/// One dependency line.
pub open spec fn dep_line_text(e: StoreEntry) -> Seq<char> {
    e.name@ + " = "@ + spec_value_text(e.spec@) + "\n"@
}

/// The section word for `kind`.
pub open spec fn kind_text(kind: SpecKind) -> Seq<char> {
    match kind {
        SpecKind::Conda => "dependencies"@,
        SpecKind::Pypi => "pypi-dependencies"@,
    }
}

/// The lines of the all-platforms entries, in order.
pub open spec fn base_lines_text(entries: Seq<StoreEntry>) -> Seq<char>
    decreases entries.len(),
{
    if entries.len() == 0 {
        Seq::empty()
    } else {
        base_lines_text(entries.drop_last()) + (if entries.last().platform is None {
            dep_line_text(entries.last())
        } else {
            Seq::<char>::empty()
        })
    }
}

/// The per-platform blocks: a target header and a line for each
/// platform-scoped entry, in order.
pub open spec fn target_blocks_text(f: Seq<char>, kind: SpecKind, entries: Seq<StoreEntry>) -> Seq<
    char,
>
    decreases entries.len(),
{
    if entries.len() == 0 {
        Seq::empty()
    } else {
        target_blocks_text(f, kind, entries.drop_last()) + (match entries.last().platform {
            Some(p) => "[feature."@ + f + ".target."@ + p@ + "."@ + kind_text(kind) + "]\n"@
                + dep_line_text(entries.last()),
            None => Seq::<char>::empty(),
        })
    }
}

/// Whether any entry is in the all-platforms scope.
pub open spec fn has_base_entry(entries: Seq<StoreEntry>) -> bool {
    exists|i: int| 0 <= i < entries.len() && (#[trigger] entries[i]).platform is None
}

/// A store rendered under feature `f`: the all-platforms section when it
/// has lines, then one block per platform-scoped entry.
pub open spec fn store_text(f: Seq<char>, kind: SpecKind, entries: Seq<StoreEntry>) -> Seq<char> {
    (if has_base_entry(entries) {
        "[feature."@ + f + "."@ + kind_text(kind) + "]\n"@ + base_lines_text(entries)
    } else {
        Seq::<char>::empty()
    }) + target_blocks_text(f, kind, entries)
}

fn append_dep_line(out: &mut String, e: &StoreEntry)
    ensures
        final(out)@ == old(out)@ + dep_line_text(*e),
{
    out.append(e.name.as_str());
    out.append(" = ");
    append_spec_value(out, &e.spec);
    out.append("\n");
    assert(out@ =~= old(out)@ + dep_line_text(*e));
}

fn append_store(out: &mut String, f: &String, kind: SpecKind, store: &DependencyStore)
    ensures
        final(out)@ == old(out)@ + store_text(f@, kind, store.entry_seq()),
{
    let ghost entries = store.entry_seq();
    let mut any_base = false;
    let mut i: usize = 0;
    while i < store.entry_count()
        invariant
            entries == store.entry_seq(),
            i <= entries.len(),
            any_base == exists|j: int|
                0 <= j < i && (#[trigger] entries[j]).platform is None,
        decreases entries.len() - i,
    {
        if store.entry_at(i).platform.is_none() {
            any_base = true;
        }
        i += 1;
    }
    assert(any_base == has_base_entry(entries));
    let ghost base0 = out@;
    if any_base {
        out.append("[feature.");
        out.append(f.as_str());
        out.append(".");
        match kind {
            SpecKind::Conda => out.append("dependencies"),
            SpecKind::Pypi => out.append("pypi-dependencies"),
        }
        out.append("]\n");
        assert(out@ =~= base0 + "[feature."@ + f@ + "."@ + kind_text(kind) + "]\n"@);
        let mut i: usize = 0;
        while i < store.entry_count()
            invariant
                entries == store.entry_seq(),
                i <= entries.len(),
                out@ == base0 + "[feature."@ + f@ + "."@ + kind_text(kind) + "]\n"@
                    + base_lines_text(entries.take(i as int)),
            decreases entries.len() - i,
        {
            let e = store.entry_at(i);
            proof {
                assert(entries.take(i as int + 1).drop_last() =~= entries.take(i as int));
                assert(entries.take(i as int + 1).last() == entries[i as int]);
            }
            if e.platform.is_none() {
                append_dep_line(out, e);
            }
            assert(out@ =~= base0 + "[feature."@ + f@ + "."@ + kind_text(kind) + "]\n"@
                + base_lines_text(entries.take(i as int + 1)));
            i += 1;
        }
        proof {
            assert(entries.take(entries.len() as int) =~= entries);
        }
    }
    let ghost base1 = out@;
    proof {
        assert(base1 =~= base0 + (if has_base_entry(entries) {
            "[feature."@ + f@ + "."@ + kind_text(kind) + "]\n"@ + base_lines_text(entries)
        } else {
            Seq::<char>::empty()
        }));
    }
    let mut i: usize = 0;
    while i < store.entry_count()
        invariant
            entries == store.entry_seq(),
            i <= entries.len(),
            out@ == base1 + target_blocks_text(f@, kind, entries.take(i as int)),
        decreases entries.len() - i,
    {
        let e = store.entry_at(i);
        proof {
            assert(entries.take(i as int + 1).drop_last() =~= entries.take(i as int));
            assert(entries.take(i as int + 1).last() == entries[i as int]);
        }
        match &e.platform {
            Some(p) => {
                let ghost b = out@;
                out.append("[feature.");
                out.append(f.as_str());
                out.append(".target.");
                out.append(p.as_str());
                out.append(".");
                match kind {
                    SpecKind::Conda => out.append("dependencies"),
                    SpecKind::Pypi => out.append("pypi-dependencies"),
                }
                out.append("]\n");
                append_dep_line(out, e);
                assert(out@ =~= b + "[feature."@ + f@ + ".target."@ + p@ + "."@ + kind_text(kind)
                    + "]\n"@ + dep_line_text(entries[i as int]));
            },
            None => {},
        }
        assert(out@ =~= base1 + target_blocks_text(f@, kind, entries.take(i as int + 1)));
        i += 1;
    }
    proof {
        assert(entries.take(entries.len() as int) =~= entries);
        assert(out@ =~= old(out)@ + store_text(f@, kind, entries));
    }
}


/// The lines of a task table, in order.
pub open spec fn task_lines_text(tasks: Seq<(String, String)>) -> Seq<char>
    decreases tasks.len(),
{
    if tasks.len() == 0 {
        Seq::empty()
    } else {
        task_lines_text(tasks.drop_last()) + tasks.last().0@ + " = "@ + tasks.last().1@ + "\n"@
    }
}

/// A feature's override section, present when it overrides anything or
/// carries preserved foreign keys.
pub open spec fn feature_attrs_text(f: Feature) -> Seq<char> {
    if f.platforms is Some || f.channels is Some || f.extra@.len() > 0 {
        "[feature."@ + f.name@ + "]\n"@ + (match f.platforms {
            Some(v) => "platforms = "@ + array_text(strs_view(v@)) + "\n"@,
            None => Seq::<char>::empty(),
        }) + (match f.channels {
            Some(v) => "channels = "@ + array_text(strs_view(v@)) + "\n"@,
            None => Seq::<char>::empty(),
        }) + task_lines_text(f.extra@)
    } else {
        Seq::empty()
    }
}

/// A feature's task section, present when it has tasks.
pub open spec fn feature_tasks_text(f: Feature) -> Seq<char> {
    if f.tasks@.len() > 0 {
        "[feature."@ + f.name@ + ".tasks]\n"@ + task_lines_text(f.tasks@)
    } else {
        Seq::empty()
    }
}

/// Everything a feature is written as.
pub open spec fn feature_text(f: Feature) -> Seq<char> {
    feature_attrs_text(f) + store_text(f.name@, SpecKind::Conda, f.dependencies.entry_seq())
        + store_text(f.name@, SpecKind::Pypi, f.pypi_dependencies.entry_seq())
        + feature_tasks_text(f)
}

pub open spec fn features_text(fs: Seq<Feature>) -> Seq<char>
    decreases fs.len(),
{
    if fs.len() == 0 {
        Seq::empty()
    } else {
        features_text(fs.drop_last()) + feature_text(fs.last())
    }
}

/// One environment line inside `[environments]`.
pub open spec fn env_line_text(e: EnvironmentDef) -> Seq<char> {
    e.name@ + " = { features = "@ + array_text(strs_view(e.features@)) + (match e.solve_group {
        Some(g) => ", solve-group = "@ + quoted_text(g@),
        None => Seq::<char>::empty(),
    }) + (if e.no_default_feature {
        ", no-default-feature = true"@
    } else {
        Seq::<char>::empty()
    }) + " }\n"@
}

pub open spec fn envs_text(es: Seq<EnvironmentDef>) -> Seq<char>
    decreases es.len(),
{
    if es.len() == 0 {
        Seq::empty()
    } else {
        envs_text(es.drop_last()) + env_line_text(es.last())
    }
}

/// The preserved foreign workspace lines, in order.
pub open spec fn extra_lines_text(extra: Seq<(String, String)>) -> Seq<char>
    decreases extra.len(),
{
    if extra.len() == 0 {
        Seq::empty()
    } else {
        extra_lines_text(extra.drop_last()) + extra.last().0@ + " = "@ + extra.last().1@ + "\n"@
    }
}

/// The workspace section.
pub open spec fn workspace_text(w: crate::model::Workspace) -> Seq<char> {
    "[workspace]\nname = "@ + quoted_text(w.name@) + "\nchannels = "@ + array_text(
        strs_view(w.channels@),
    ) + "\nplatforms = "@ + array_text(strs_view(w.platforms@)) + "\n"@
        + (match w.pixi_version {
        Some(v) => "pixi-version = "@ + quoted_text(v@) + "\n"@,
        None => Seq::<char>::empty(),
    }) + extra_lines_text(w.extra@)
}

/// The raw lines of a preserved foreign section, in order.
pub open spec fn foreign_lines_text(lines: Seq<String>) -> Seq<char>
    decreases lines.len(),
{
    if lines.len() == 0 {
        Seq::empty()
    } else {
        foreign_lines_text(lines.drop_last()) + lines.last()@ + "\n"@
    }
}

/// A preserved foreign section: its header line and its lines, verbatim.
pub open spec fn foreign_section_text(s: ForeignSection) -> Seq<char> {
    s.header@ + "\n"@ + foreign_lines_text(s.lines@)
}

pub open spec fn foreign_text(fs: Seq<ForeignSection>) -> Seq<char>
    decreases fs.len(),
{
    if fs.len() == 0 {
        Seq::empty()
    } else {
        foreign_text(fs.drop_last()) + foreign_section_text(fs.last())
    }
}

/// The whole document.
pub open spec fn manifest_text(m: Manifest) -> Seq<char> {
    workspace_text(m.workspace) + features_text(m.features@) + "[environments]\n"@ + envs_text(
        m.environments@,
    ) + foreign_text(m.foreign@)
}

fn append_pair_lines(out: &mut String, pairs: &Vec<(String, String)>)
    ensures
        final(out)@ == old(out)@ + task_lines_text(pairs@),
        task_lines_text(pairs@) == extra_lines_text(pairs@),
{
    proof {
        assert forall|s: Seq<(String, String)>|
            true implies #[trigger] task_lines_text(s) == extra_lines_text(s) by {
            lemma_pair_lines_agree(s);
        }
    }
    let mut i: usize = 0;
    while i < pairs.len()
        invariant
            i <= pairs@.len(),
            out@ == old(out)@ + task_lines_text(pairs@.take(i as int)),
        decreases pairs@.len() - i,
    {
        let (k, v) = &pairs[i];
        proof {
            assert(pairs@.take(i as int + 1).drop_last() =~= pairs@.take(i as int));
            assert(pairs@.take(i as int + 1).last() == pairs@[i as int]);
        }
        out.append(k.as_str());
        out.append(" = ");
        out.append(v.as_str());
        out.append("\n");
        assert(out@ =~= old(out)@ + task_lines_text(pairs@.take(i as int + 1)));
        i += 1;
    }
    proof {
        assert(pairs@.take(pairs@.len() as int) =~= pairs@);
    }
}

proof fn lemma_pair_lines_agree(s: Seq<(String, String)>)
    ensures
        task_lines_text(s) == extra_lines_text(s),
    decreases s.len(),
{
    if s.len() > 0 {
        lemma_pair_lines_agree(s.drop_last());
    }
}

#[verifier::rlimit(100)]
fn append_feature(out: &mut String, f: &Feature)
    ensures
        final(out)@ == old(out)@ + feature_text(*f),
{
    let ghost b0 = out@;
    if f.platforms.is_some() || f.channels.is_some() || f.extra.len() > 0 {
        out.append("[feature.");
        out.append(f.name.as_str());
        out.append("]\n");
        match &f.platforms {
            Some(v) => {
                out.append("platforms = ");
                append_array(out, v);
                out.append("\n");
            },
            None => {},
        }
        match &f.channels {
            Some(v) => {
                out.append("channels = ");
                append_array(out, v);
                out.append("\n");
            },
            None => {},
        }
        append_pair_lines(out, &f.extra);
    }
    assert(out@ =~= b0 + feature_attrs_text(*f));
    let ghost b1 = out@;
    append_store(out, &f.name, SpecKind::Conda, &f.dependencies);
    append_store(out, &f.name, SpecKind::Pypi, &f.pypi_dependencies);
    let ghost b2 = out@;
    if f.tasks.len() > 0 {
        out.append("[feature.");
        out.append(f.name.as_str());
        out.append(".tasks]\n");
        append_pair_lines(out, &f.tasks);
    }
    assert(out@ =~= b2 + feature_tasks_text(*f));
    assert(out@ =~= old(out)@ + feature_text(*f));
}

fn append_environment(out: &mut String, e: &EnvironmentDef)
    ensures
        final(out)@ == old(out)@ + env_line_text(*e),
{
    out.append(e.name.as_str());
    out.append(" = { features = ");
    append_array(out, &e.features);
    match &e.solve_group {
        Some(g) => {
            out.append(", solve-group = ");
            append_quoted(out, g);
        },
        None => {},
    }
    if e.no_default_feature {
        out.append(", no-default-feature = true");
    }
    out.append(" }\n");
    assert(out@ =~= old(out)@ + env_line_text(*e));
}

/// Renders the manifest graph as document text; the exact text is
/// `manifest_text`. Serialization is the left inverse of parsing for the
/// values this model represents.
pub fn serialize(m: &Manifest) -> (r: String)
    ensures
        r@ == manifest_text(*m),
{
    let mut out = String::new();
    out.append("[workspace]\nname = ");
    append_quoted(&mut out, &m.workspace.name);
    out.append("\nchannels = ");
    append_array(&mut out, &m.workspace.channels);
    out.append("\nplatforms = ");
    append_array(&mut out, &m.workspace.platforms);
    out.append("\n");
    match &m.workspace.pixi_version {
        Some(v) => {
            out.append("pixi-version = ");
            append_quoted(&mut out, v);
            out.append("\n");
        },
        None => {},
    }
    append_pair_lines(&mut out, &m.workspace.extra);
    assert(out@ =~= workspace_text(m.workspace));
    let ghost b0 = out@;
    let mut i: usize = 0;
    while i < m.features.len()
        invariant
            i <= m.features@.len(),
            out@ == b0 + features_text(m.features@.take(i as int)),
        decreases m.features@.len() - i,
    {
        proof {
            assert(m.features@.take(i as int + 1).drop_last() =~= m.features@.take(i as int));
            assert(m.features@.take(i as int + 1).last() == m.features@[i as int]);
        }
        append_feature(&mut out, &m.features[i]);
        assert(out@ =~= b0 + features_text(m.features@.take(i as int + 1)));
        i += 1;
    }
    proof {
        assert(m.features@.take(m.features@.len() as int) =~= m.features@);
    }
    out.append("[environments]\n");
    let ghost b1 = out@;
    let mut i: usize = 0;
    while i < m.environments.len()
        invariant
            i <= m.environments@.len(),
            out@ == b1 + envs_text(m.environments@.take(i as int)),
        decreases m.environments@.len() - i,
    {
        proof {
            assert(m.environments@.take(i as int + 1).drop_last() =~= m.environments@.take(
                i as int,
            ));
            assert(m.environments@.take(i as int + 1).last() == m.environments@[i as int]);
        }
        append_environment(&mut out, &m.environments[i]);
        assert(out@ =~= b1 + envs_text(m.environments@.take(i as int + 1)));
        i += 1;
    }
    proof {
        assert(m.environments@.take(m.environments@.len() as int) =~= m.environments@);
    }
    let ghost b2 = out@;
    let mut i: usize = 0;
    while i < m.foreign.len()
        invariant
            i <= m.foreign@.len(),
            out@ == b2 + foreign_text(m.foreign@.take(i as int)),
        decreases m.foreign@.len() - i,
    {
        proof {
            assert(m.foreign@.take(i as int + 1).drop_last() =~= m.foreign@.take(i as int));
            assert(m.foreign@.take(i as int + 1).last() == m.foreign@[i as int]);
        }
        let fs = &m.foreign[i];
        out.append(fs.header.as_str());
        out.append("\n");
        let ghost b3 = out@;
        let mut j: usize = 0;
        while j < fs.lines.len()
            invariant
                j <= fs.lines@.len(),
                out@ == b3 + foreign_lines_text(fs.lines@.take(j as int)),
            decreases fs.lines@.len() - j,
        {
            proof {
                assert(fs.lines@.take(j as int + 1).drop_last() =~= fs.lines@.take(j as int));
                assert(fs.lines@.take(j as int + 1).last() == fs.lines@[j as int]);
            }
            out.append(fs.lines[j].as_str());
            out.append("\n");
            assert(out@ =~= b3 + foreign_lines_text(fs.lines@.take(j as int + 1)));
            j += 1;
        }
        proof {
            assert(fs.lines@.take(fs.lines@.len() as int) =~= fs.lines@);
            assert(out@ =~= b2 + foreign_text(m.foreign@.take(i as int + 1)));
        }
        i += 1;
    }
    proof {
        assert(m.foreign@.take(m.foreign@.len() as int) =~= m.foreign@);
        assert(out@ =~= manifest_text(*m));
    }
    out
}


/// The grain of the round-trip law: a quoted scalar the serializer writes
/// is exactly what the parser's quoted-value reader accepts, and reading
/// it back yields the scalar.
pub proof fn lemma_quoted_value_round_trip(s: Seq<char>)
    requires
        vstd::utf8::is_ascii_chars(s),
        forall|i: int| 0 <= i < s.len() ==> s[i] != '"',
    ensures
        crate::parse::quoted_bytes(crate::text::byte_view(quoted_text(s))),
        crate::text::char_view(
            crate::text::byte_view(quoted_text(s)).subrange(
                1,
                crate::text::byte_view(quoted_text(s)).len() - 1,
            ),
        ) == s,
{
    reveal_strlit("\"");
    let q = quoted_text(s);
    assert(q.len() == s.len() + 2);
    assert(q[0] == '"');
    assert(q[q.len() - 1] == '"');
    assert(forall|i: int| 0 <= i < s.len() ==> #[trigger] q[1 + i] == s[i]);
    assert(vstd::utf8::is_ascii_chars(q)) by {
        assert forall|i: int| 0 <= i < q.len() implies '\0' <= #[trigger] q[i] <= '\u{7f}' by {
            if i == 0 || i == q.len() - 1 {
                assert(q[i] == '"');
            } else {
                assert(q[i] == s[i - 1]);
            }
        }
    }
    crate::text::lemma_byte_char_roundtrip(q);
    crate::text::lemma_byte_char_roundtrip(s);
    let b = crate::text::byte_view(q);
    assert(b.len() == q.len());
    assert('"' as u8 == 34);
    assert(b[0] == 34);
    assert(b[b.len() - 1] == 34);
    assert forall|i: int| 1 <= i < b.len() - 1 implies b[i] != 34 by {
        assert(q[i] == s[i - 1]);
        assert(b[i] == q[i] as u8);
        if b[i] == 34 {
            assert((q[i] as u8) as char == q[i]);
            assert(('"' as u8) as char == '"');
            assert(q[i] == '"');
        }
    }
    assert(b.subrange(1, b.len() - 1) =~= crate::text::byte_view(s));
    assert(crate::text::char_view(b.subrange(1, b.len() - 1)) =~= s);
}

} // verus!
