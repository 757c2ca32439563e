//! Properties of whole scans, stated over the specification of `document`.
use vstd::prelude::*;
use crate::document::{
    count_pieces, decl_step, document_env, document_records, element_count, env_binding,
    env_prefix, env_reference, fold_steps, initial_scan, line_comment, line_kind, line_step,
    lines_of, mode_after, resolve, scan_document, step_decl, LineKind, Mode, ScanView,
};
use crate::document::first_body_begin;
use crate::strmap::{lemma_map_of_last, map_of};
use crate::text::{split_on, starts_with, trim};

verus! {

/// The environment bindings that the pieces `ps` of a content line make in section `m`.
pub open spec fn piece_bindings(m: Mode, ps: Seq<Seq<char>>) -> Seq<(Seq<char>, Seq<char>)>
    decreases ps.len(),
{
    if ps.len() == 0 {
        Seq::empty()
    } else {
        let d = trim(ps.last());
        let rest = piece_bindings(m, ps.drop_last());
        if m == Mode::Env && d.len() > 0 && !starts_with(d, line_comment()) && starts_with(
            d,
            env_prefix(),
        ) && env_binding(d) is Some {
            rest.push(env_binding(d)->Some_0)
        } else {
            rest
        }
    }
}

/// The environment bindings that the given lines make, in order.
pub open spec fn line_bindings(lines: Seq<Seq<char>>) -> Seq<(Seq<char>, Seq<char>)>
    decreases lines.len(),
{
    if lines.len() == 0 {
        Seq::empty()
    } else {
        let l = trim(lines.last());
        let rest = line_bindings(lines.drop_last());
        if line_kind(l) == LineKind::Content {
            rest + piece_bindings(mode_after(lines.drop_last()), split_on(l, ';'))
        } else {
            rest
        }
    }
}

/// The environment bindings of a document before its body begins, in order.
pub open spec fn document_bindings(text: Seq<char>) -> Seq<(Seq<char>, Seq<char>)> {
    let lines = lines_of(text);
    line_bindings(lines.take(first_body_begin(lines)))
}

proof fn lemma_pieces_count(st: ScanView, ps: Seq<Seq<char>>)
    requires
        fold_steps(st, ps, decl_step()) is Ok,
    ensures
        fold_steps(st, ps, decl_step())->Ok_0.mode == st.mode,
        fold_steps(st, ps, decl_step())->Ok_0.records.len() == st.records.len() + count_pieces(
            st.mode,
            ps,
        ),
    decreases ps.len(),
{
    if ps.len() > 0 {
        lemma_pieces_count(st, ps.drop_last());
    }
}

proof fn lemma_pieces_env(st: ScanView, ps: Seq<Seq<char>>, b: Seq<(Seq<char>, Seq<char>)>)
    requires
        fold_steps(st, ps, decl_step()) is Ok,
        st.env == map_of(b),
    ensures
        fold_steps(st, ps, decl_step())->Ok_0.env == map_of(b + piece_bindings(st.mode, ps)),
    decreases ps.len(),
{
    if ps.len() == 0 {
        assert(b + piece_bindings(st.mode, ps) =~= b);
    } else {
        lemma_pieces_env(st, ps.drop_last(), b);
        lemma_pieces_count(st, ps.drop_last());
        let pb = piece_bindings(st.mode, ps.drop_last());
        let d = trim(ps.last());
        if st.mode == Mode::Env && d.len() > 0 && !starts_with(d, line_comment()) && starts_with(
            d,
            env_prefix(),
        ) && env_binding(d) is Some {
            let x = env_binding(d)->Some_0;
            assert(b + pb.push(x) =~= (b + pb).push(x));
            assert((b + pb).push(x).drop_last() =~= b + pb);
        }
    }
}

proof fn lemma_lines_env(lines: Seq<Seq<char>>)
    requires
        fold_steps(initial_scan(), lines, line_step()) is Ok,
    ensures
        fold_steps(initial_scan(), lines, line_step())->Ok_0.env == map_of(line_bindings(lines)),
    decreases lines.len(),
{
    if lines.len() == 0 {
        assert(map_of(Seq::<(Seq<char>, Seq<char>)>::empty()) =~= Map::<Seq<char>, Seq<char>>::empty());
    } else {
        lemma_lines_env(lines.drop_last());
        lemma_lines_count(lines.drop_last());
        let s = fold_steps(initial_scan(), lines.drop_last(), line_step())->Ok_0;
        let l = trim(lines.last());
        if line_kind(l) == LineKind::Content {
            lemma_pieces_env(s, split_on(l, ';'), line_bindings(lines.drop_last()));
        }
    }
}

proof fn lemma_lines_count(lines: Seq<Seq<char>>)
    requires
        fold_steps(initial_scan(), lines, line_step()) is Ok,
    ensures
        fold_steps(initial_scan(), lines, line_step())->Ok_0.mode == mode_after(lines),
        fold_steps(initial_scan(), lines, line_step())->Ok_0.records.len() == element_count(lines),
    decreases lines.len(),
{
    if lines.len() > 0 {
        lemma_lines_count(lines.drop_last());
        let s = fold_steps(initial_scan(), lines.drop_last(), line_step())->Ok_0;
        let l = trim(lines.last());
        if line_kind(l) == LineKind::Content {
            lemma_pieces_count(s, split_on(l, ';'));
        }
    }
}

/// A parsed document has exactly one record per element declaration: per `;`-separated
/// piece of a content line met inside the body that, trimmed, is non-empty, is no
/// comment and starts with `>`. Blank lines, comments and markers add none.
pub proof fn lemma_record_count(text: Seq<char>)
    requires
        document_records(text) is Ok,
    ensures
        document_records(text)->Ok_0.len() == element_count(lines_of(text)),
{
    lemma_lines_count(lines_of(text));
}

/// Parsing depends on the text alone: equal texts give equal records and environments.
pub proof fn lemma_parse_deterministic(a: Seq<char>, b: Seq<char>)
    requires
        a == b,
    ensures
        document_records(a) == document_records(b),
        document_env(a) == document_env(b),
        scan_document(a) == scan_document(b),
{
}

/// The environment of a document is its bindings before the body, a later binding of a
/// name replacing an earlier one.
pub proof fn lemma_document_env(text: Seq<char>)
    requires
        document_env(text) is Ok,
    ensures
        document_env(text)->Ok_0 == map_of(document_bindings(text)),
{
    let lines = lines_of(text);
    lemma_lines_env(lines.take(first_body_begin(lines)));
}

/// In a document's environment, each name takes the value of its last binding before the
/// body: a binding is overridden by any later one of the same name.
pub proof fn lemma_last_binding_wins(text: Seq<char>, i: int)
    requires
        document_env(text) is Ok,
        0 <= i < document_bindings(text).len(),
        forall|j: int|
            i < j < document_bindings(text).len() ==> #[trigger] document_bindings(text)[j].0
                != document_bindings(text)[i].0,
    ensures
        document_env(text)->Ok_0.contains_key(document_bindings(text)[i].0),
        document_env(text)->Ok_0[document_bindings(text)[i].0] == document_bindings(text)[i].1,
{
    lemma_document_env(text);
    lemma_map_of_last(document_bindings(text), i);
}

/// In the environment section, a later binding of a name replaces an earlier one.
pub proof fn lemma_env_override(st: ScanView, d1: Seq<char>, d2: Seq<char>)
    requires
        st.mode == Mode::Env,
        starts_with(trim(d1), env_prefix()),
        starts_with(trim(d2), env_prefix()),
        env_binding(trim(d1)) is Some,
        env_binding(trim(d2)) is Some,
        env_binding(trim(d1))->Some_0.0 == env_binding(trim(d2))->Some_0.0,
    ensures
        step_decl(st, d1) is Ok,
        step_decl(step_decl(st, d1)->Ok_0, d2) is Ok,
        step_decl(step_decl(st, d1)->Ok_0, d2)->Ok_0.env[env_binding(trim(d2))->Some_0.0]
            == env_binding(trim(d2))->Some_0.1,
{
    assert(trim(d1).subrange(0, 3)[1] == '>');
    assert(trim(d2).subrange(0, 3)[1] == '>');
    assert(!starts_with(trim(d1), line_comment()));
    assert(!starts_with(trim(d2), line_comment()));
}

/// A reference `$env:name` to a name that is not bound stays as written.
pub proof fn lemma_unresolved_reference(raw: Seq<char>, env: Map<Seq<char>, Seq<char>>)
    requires
        starts_with(raw, env_reference()),
        !env.contains_key(raw.skip(5)),
    ensures
        resolve(raw, env) == raw,
{
}

} // verus!
