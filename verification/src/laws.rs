//! Laws of the classifier and the region tracker, stated over the
//! specification-level engine and proved once and for all.

use vstd::prelude::*;
use crate::block::{can_set_end, can_set_start, is_valid_spec, new_spec, BlockSpec};
use crate::matcher::{classify_spec, FindSpec};
use crate::parser::{
    finalize_spec,
    init_state,
    parse_spec,
    run_spec,
    step_spec,
    StateSpec,
    Warning,
};

verus! {

/// The classifier is a pure, total function of the line: classifying equal
/// lines, or the same line twice, gives the same single tag.
pub proof fn lemma_classifier_deterministic(a: Seq<u8>, b: Seq<u8>)
    requires
        a == b,
    ensures
        classify_spec(a) == classify_spec(b),
{
}

/// Lines that classify as empty leave the engine state untouched.
pub proof fn lemma_run_skips_empty(lines: Seq<Seq<u8>>, k: int, m: int, st: StateSpec)
    requires
        0 <= k <= m <= lines.len(),
        forall|j: int| k <= j < m ==> classify_spec(lines[j]) == FindSpec::Empty,
    ensures
        run_spec(lines, k, st) == run_spec(lines, m, st),
    decreases m - k,
{
    if k < m {
        assert(classify_spec(lines[k]) == FindSpec::Empty);
        assert(step_spec(st, classify_spec(lines[k]), k as usize) == st);
        lemma_run_skips_empty(lines, k + 1, m, st);
    }
}

/// A well-formed input holding exactly one call, one start and one matching
/// end, and otherwise only empty lines, parses without error or warning to a
/// single region whose attributes, items and output are all unset.
pub proof fn lemma_single_region(lines: Seq<Seq<u8>>, c: int, s: int, e: int, name: Seq<u8>)
    requires
        lines.len() <= usize::MAX,
        0 <= c < s < e < lines.len(),
        classify_spec(lines[c]) == FindSpec::Call(name),
        classify_spec(lines[s]) == FindSpec::Start,
        classify_spec(lines[e]) == FindSpec::End(name),
        forall|j: int|
            0 <= j < lines.len() && j != c && j != s && j != e ==> classify_spec(lines[j])
                == FindSpec::Empty,
    ensures
        ({
            let st = parse_spec(lines, init_state(Seq::empty(), Seq::empty()));
            &&& st.error is None
            &&& st.warnings == Seq::<Warning>::empty()
            &&& st.blocks == seq![
                BlockSpec {
                    name,
                    call: c as usize,
                    attributes: None,
                    items: None,
                    start: Some(s as usize),
                    output: None,
                    end: Some(e as usize),
                },
            ]
        }),
{
    let st0 = init_state(Seq::empty(), Seq::empty());
    lemma_run_skips_empty(lines, 0, c, st0);
    let b1 = new_spec(name, c as usize);
    let st1 = step_spec(st0, classify_spec(lines[c]), c as usize);
    assert(st1.blocks =~= seq![b1]);
    assert(run_spec(lines, c, st0) == run_spec(lines, c + 1, st1));
    lemma_run_skips_empty(lines, c + 1, s, st1);
    assert(st1.blocks.last() == b1);
    assert(can_set_start(b1));
    let b2 = BlockSpec { start: Some(s as usize), ..b1 };
    let st2 = step_spec(st1, classify_spec(lines[s]), s as usize);
    assert(st2.blocks =~= seq![b2]);
    assert(run_spec(lines, s, st1) == run_spec(lines, s + 1, st2));
    lemma_run_skips_empty(lines, s + 1, e, st2);
    assert(st2.blocks.last() == b2);
    assert(can_set_end(b2));
    assert(b2.name == name);
    let b3 = BlockSpec { end: Some(e as usize), ..b2 };
    let st3 = step_spec(st2, classify_spec(lines[e]), e as usize);
    assert(st3.blocks =~= seq![b3]);
    assert(st3.warnings == st2.warnings);
    assert(run_spec(lines, e, st2) == run_spec(lines, e + 1, st3));
    lemma_run_skips_empty(lines, e + 1, lines.len() as int, st3);
    assert(run_spec(lines, lines.len() as int, st3) == st3);
    assert(st3.blocks.last() == b3);
    assert(is_valid_spec(b3) is Ok);
    assert(finalize_spec(st3) == st3);
}

/// All regions before the last one satisfy the region invariants: a region is
/// validated before the next call supersedes it.
pub open spec fn prefix_valid(st: StateSpec) -> bool {
    forall|k: int|
        0 <= k < st.blocks.len() - 1 ==> is_valid_spec(#[trigger] st.blocks[k]) is Ok
}

proof fn lemma_step_preserves_prefix(st: StateSpec, tag: FindSpec, i: usize)
    requires
        prefix_valid(st),
    ensures
        prefix_valid(step_spec(st, tag, i)),
{
    let nst = step_spec(st, tag, i);
    assert forall|k: int| 0 <= k < nst.blocks.len() - 1 implies is_valid_spec(
        #[trigger] nst.blocks[k],
    ) is Ok by {
        if st.error is None {
            match tag {
                FindSpec::Call(name) => {
                    if st.blocks.len() > 0 && is_valid_spec(st.blocks.last()) is Ok {
                        if k < st.blocks.len() - 1 {
                            assert(nst.blocks[k] == st.blocks[k]);
                        } else {
                            assert(nst.blocks[k] == st.blocks.last());
                        }
                    } else {
                        if k < nst.blocks.len() - 1 {
                            assert(nst.blocks[k] == st.blocks[k]);
                        }
                    }
                },
                _ => {
                    if k < nst.blocks.len() - 1 {
                        assert(nst.blocks[k] == st.blocks[k]);
                    }
                },
            }
        }
    }
}

proof fn lemma_run_preserves_prefix(lines: Seq<Seq<u8>>, k: int, st: StateSpec)
    requires
        prefix_valid(st),
    ensures
        prefix_valid(run_spec(lines, k, st)),
    decreases lines.len() - k,
{
    if 0 <= k && k < lines.len() {
        lemma_step_preserves_prefix(st, classify_spec(lines[k]), k as usize);
        lemma_run_preserves_prefix(lines, k + 1, step_spec(st, classify_spec(lines[k]), k as usize));
    }
}

/// Region invariants hold for every region of a successful parse: input items
/// imply a start marker, output items imply an end marker.
pub proof fn lemma_success_blocks_valid(lines: Seq<Seq<u8>>, st0: StateSpec)
    requires
        prefix_valid(st0),
        parse_spec(lines, st0).error is None,
    ensures
        forall|k: int|
            0 <= k < parse_spec(lines, st0).blocks.len() ==> is_valid_spec(
                #[trigger] parse_spec(lines, st0).blocks[k],
            ) is Ok,
        forall|k: int|
            0 <= k < parse_spec(lines, st0).blocks.len() ==> ((#[trigger] parse_spec(
                lines,
                st0,
            ).blocks[k]).items is Some ==> parse_spec(lines, st0).blocks[k].start is Some),
        forall|k: int|
            0 <= k < parse_spec(lines, st0).blocks.len() ==> ((#[trigger] parse_spec(
                lines,
                st0,
            ).blocks[k]).output is Some ==> parse_spec(lines, st0).blocks[k].end is Some),
{
    lemma_run_preserves_prefix(lines, 0, st0);
    let rst = run_spec(lines, 0, st0);
    let fst = parse_spec(lines, st0);
    if rst.error is Some {
        assert(finalize_spec(rst) == rst);
        assert(false);
    }
    assert forall|k: int| 0 <= k < fst.blocks.len() implies is_valid_spec(
        #[trigger] fst.blocks[k],
    ) is Ok by {
        if rst.blocks.len() > 0 && is_valid_spec(rst.blocks.last()) is Err {
            assert(fst.error is Some);
        }
        assert(fst.blocks == rst.blocks);
        if k < rst.blocks.len() - 1 {
            assert(is_valid_spec(rst.blocks[k]) is Ok);
        } else {
            assert(rst.blocks[k] == rst.blocks.last());
        }
    }
}

/// The line indices recorded on a region are ordered as its fields are
/// populated: the call line comes first, attributes precede items, both
/// precede the start marker, output lies between start and end, and the end
/// marker comes after the lines it closes.
pub open spec fn indices_ordered(b: BlockSpec) -> bool {
    &&& (b.attributes matches Some(a) ==> b.call < a)
    &&& (b.items matches Some(x) ==> b.call < x && (b.attributes matches Some(a) ==> a < x))
    &&& (b.start matches Some(s) ==> b.call < s && (b.attributes matches Some(a) ==> a < s) && (
    b.items matches Some(x) ==> x < s))
    &&& (b.output matches Some(o) ==> b.call < o && (b.start matches Some(s) ==> s < o))
    &&& (b.end matches Some(e) ==> b.call < e && (b.start matches Some(s) ==> s < e) && (
    b.output matches Some(o) ==> o < e))
}

/// All indices recorded on the region lie below `n`.
pub open spec fn indices_below(b: BlockSpec, n: int) -> bool {
    &&& b.call < n
    &&& (b.attributes matches Some(a) ==> a < n)
    &&& (b.items matches Some(x) ==> x < n)
    &&& (b.start matches Some(s) ==> s < n)
    &&& (b.output matches Some(o) ==> o < n)
    &&& (b.end matches Some(e) ==> e < n)
}

/// Every region of the state is ordered, with all indices below `n`.
pub open spec fn state_ordered(st: StateSpec, n: int) -> bool {
    forall|k: int|
        0 <= k < st.blocks.len() ==> indices_ordered(#[trigger] st.blocks[k]) && indices_below(
            st.blocks[k],
            n,
        )
}

proof fn lemma_step_preserves_ordered(st: StateSpec, tag: FindSpec, i: usize)
    requires
        state_ordered(st, i as int),
    ensures
        state_ordered(step_spec(st, tag, i), i as int + 1),
{
    let nst = step_spec(st, tag, i);
    assert forall|k: int| 0 <= k < nst.blocks.len() implies indices_ordered(
        #[trigger] nst.blocks[k],
    ) && indices_below(nst.blocks[k], i as int + 1) by {
        if st.error is None {
            let last = st.blocks.len() - 1;
            if st.blocks.len() > 0 {
                assert(indices_ordered(st.blocks[last]) && indices_below(st.blocks[last], i as int));
            }
            match tag {
                FindSpec::Call(name) => {
                    if st.blocks.len() > 0 && is_valid_spec(st.blocks.last()) is Err {
                        assert(nst.blocks[k] == st.blocks[k]);
                    } else if k < st.blocks.len() {
                        assert(nst.blocks[k] == st.blocks[k]);
                    } else {
                        assert(nst.blocks[k] == new_spec(name, i));
                    }
                },
                _ => {
                    if 0 <= k < nst.blocks.len() - 1 {
                        assert(nst.blocks[k] == st.blocks[k]);
                    } else if nst.blocks.len() == st.blocks.len() {
                        assert(nst.blocks[k] == st.blocks[k]
                            || nst.blocks[k] == nst.blocks.last());
                    }
                },
            }
        } else {
            assert(nst.blocks[k] == st.blocks[k]);
        }
    }
}

proof fn lemma_run_preserves_ordered(lines: Seq<Seq<u8>>, k: int, st: StateSpec)
    requires
        lines.len() <= usize::MAX,
        0 <= k <= lines.len(),
        state_ordered(st, k),
    ensures
        state_ordered(run_spec(lines, k, st), lines.len() as int),
    decreases lines.len() - k,
{
    if k < lines.len() {
        lemma_step_preserves_ordered(st, classify_spec(lines[k]), k as usize);
        lemma_run_preserves_ordered(
            lines,
            k + 1,
            step_spec(st, classify_spec(lines[k]), k as usize),
        );
    }
}

/// Started on a fresh state, the engine records only ordered regions: in any
/// outcome, successful or not, every region kept in the sequence has its line
/// indices ordered as the fields were populated.
pub proof fn lemma_region_indices_ordered(lines: Seq<Seq<u8>>)
    requires
        lines.len() <= usize::MAX,
    ensures
        ({
            let st = parse_spec(lines, init_state(Seq::empty(), Seq::empty()));
            forall|k: int| 0 <= k < st.blocks.len() ==> indices_ordered(#[trigger] st.blocks[k])
        }),
{
    let st0 = init_state(Seq::empty(), Seq::empty());
    lemma_run_preserves_ordered(lines, 0, st0);
    let rst = run_spec(lines, 0, st0);
    let fst = parse_spec(lines, st0);
    assert forall|k: int| 0 <= k < fst.blocks.len() implies indices_ordered(
        #[trigger] fst.blocks[k],
    ) by {
        assert(fst.blocks == rst.blocks || fst.blocks == rst.blocks.drop_last());
        assert(fst.blocks[k] == rst.blocks[k]);
    }
}

/// Routed through the engine, a start marker that arrives while the open
/// region already has its start set is rejected: the regions are unchanged
/// and the corresponding warning is appended.
pub proof fn lemma_second_start_warns(st: StateSpec, i: usize)
    requires
        st.error is None,
        st.blocks.len() > 0,
        st.blocks.last().start is Some,
    ensures
        step_spec(st, FindSpec::Start, i).blocks == st.blocks,
        step_spec(st, FindSpec::Start, i).warnings == st.warnings.push(Warning::UnexpectedStart(i)),
        step_spec(st, FindSpec::Start, i).error is None,
{
}

/// Routed through the engine, an end marker that arrives while the open
/// region already has its end set is rejected: the regions are unchanged and
/// the corresponding warning is appended.
pub proof fn lemma_second_end_warns(st: StateSpec, name: Seq<u8>, i: usize)
    requires
        st.error is None,
        st.blocks.len() > 0,
        st.blocks.last().end is Some,
    ensures
        step_spec(st, FindSpec::End(name), i).blocks == st.blocks,
        step_spec(st, FindSpec::End(name), i).warnings == st.warnings.push(
            Warning::UnexpectedEnd(i),
        ),
        step_spec(st, FindSpec::End(name), i).error is None,
{
}

} // verus!
