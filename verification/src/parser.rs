//! The region tracker: one linear pass over the classified lines.
//!
//! [`Parser::parse`] splits the text into lines, classifies each line with
//! [`Matcher::find`], and feeds the tag and line index into the per-line rule
//! [`step_spec`]: a call opens a new region after validating the previous
//! one, attribute and item lines mutate the open region, start and end
//! markers are recorded at most once each, and anomalies append warnings. At
//! end of input the last open region is validated once more
//! ([`finalize_spec`]). The result is the ordered sequence of regions plus
//! the warnings, or the fatal error carried by the offending region.

use vstd::prelude::*;
use vstd::slice::slice_subrange;
use crate::block::{Block, BlockError, BlockSpec};
use crate::block::{
    can_set_end,
    can_set_start,
    is_valid_spec,
    new_spec,
    set_attribute_spec,
    set_end_spec,
    set_item_spec,
    set_start_spec,
};
use crate::matcher::{classify_spec, Find, FindSpec, Matcher};

verus! {

/// Advisory diagnostics; each carries the line index where it occurred. None
/// aborts the pass.
#[derive(Copy, Clone, Eq, PartialEq, Debug)]
pub enum Warning {
    /// A start marker with no open region, or one whose region already has a
    /// start, output or end.
    UnexpectedStart(usize),
    /// An end marker with no open region, or one whose region already has an
    /// end.
    UnexpectedEnd(usize),
    /// A call marker whose `!` terminator is missing.
    CallNoBang(usize),
    /// An end marker whose `!` terminator is missing.
    EndNoBang(usize),
    /// An end marker naming a different invocation than its open region.
    NameMismatch(usize),
}

/// The region tracker. `blocks` holds every region seen so far; the last one
/// is the open region until it is superseded by the next call.
#[derive(Clone, Eq, PartialEq, Debug)]
pub struct Parser<'a> {
    pub content: &'a [u8],
    pub blocks: Vec<Block<'a>>,
    pub warnings: Vec<Warning>,
}

/// A line terminated by a line feed drops one trailing carriage return
/// (byte 13), so that texts with either line ending split alike.
pub open spec fn strip_cr(l: Seq<u8>) -> Seq<u8> {
    if l.len() > 0 && l[l.len() - 1] == 13 {
        l.drop_last()
    } else {
        l
    }
}

/// One splitting step: `start` is the first index of the current line, `p`
/// the position scanned so far, `acc` the lines already split off. A final
/// line without a terminator is kept (unstripped); a trailing terminator
/// yields no extra empty line.
pub open spec fn lines_rec(s: Seq<u8>, start: int, p: int, acc: Seq<Seq<u8>>) -> Seq<Seq<u8>>
    decreases s.len() - p,
{
    if !(0 <= start && start <= p && p <= s.len()) {
        acc
    } else if p == s.len() {
        if start < p {
            acc.push(s.subrange(start, p))
        } else {
            acc
        }
    } else if s[p] == 10 {
        lines_rec(s, p + 1, p + 1, acc.push(strip_cr(s.subrange(start, p))))
    } else {
        lines_rec(s, start, p + 1, acc)
    }
}

/// The lines of a text: split at line feeds, each line stripped of its
/// terminator (a line feed, or a carriage return and line feed), the final
/// terminator optional.
pub open spec fn lines_spec(s: Seq<u8>) -> Seq<Seq<u8>> {
    lines_rec(s, 0, 0, Seq::empty())
}

/// The views of a sequence of borrowed lines.
pub open spec fn line_views<'a>(v: Seq<&'a [u8]>) -> Seq<Seq<u8>> {
    v.map_values(|l: &'a [u8]| l@)
}

/// The views of a sequence of blocks.
pub open spec fn blocks_view<'a>(v: Seq<Block<'a>>) -> Seq<BlockSpec> {
    v.map_values(|b: Block<'a>| b@)
}

/// The engine state after some prefix of the lines: the regions and warnings
/// so far, and the fatal error once one was detected.
pub struct StateSpec {
    pub blocks: Seq<BlockSpec>,
    pub warnings: Seq<Warning>,
    pub error: Option<(BlockError, BlockSpec, Option<usize>)>,
}

/// A state with no error detected yet.
pub open spec fn init_state(blocks: Seq<BlockSpec>, warnings: Seq<Warning>) -> StateSpec {
    StateSpec { blocks, warnings, error: None }
}

/// The per-line rule of the engine, dispatched on the tag of line `i`. Once
/// an error is recorded the state is frozen.
pub open spec fn step_spec(st: StateSpec, tag: FindSpec, i: usize) -> StateSpec {
    if st.error is Some {
        st
    } else {
        match tag {
            FindSpec::Empty => st,
            FindSpec::CallNoBang => StateSpec {
                warnings: st.warnings.push(Warning::CallNoBang(i)),
                ..st
            },
            FindSpec::EndNoBang => StateSpec {
                warnings: st.warnings.push(Warning::EndNoBang(i)),
                ..st
            },
            FindSpec::Call(name) => {
                if st.blocks.len() > 0 {
                    match is_valid_spec(st.blocks.last()) {
                        Err(e) => StateSpec {
                            blocks: st.blocks.drop_last(),
                            error: Some((e, st.blocks.last(), Some(i))),
                            ..st
                        },
                        Ok(u) => StateSpec {
                            blocks: st.blocks.push(new_spec(name, i)),
                            ..st
                        },
                    }
                } else {
                    StateSpec { blocks: st.blocks.push(new_spec(name, i)), ..st }
                }
            },
            FindSpec::Attribute => {
                if st.blocks.len() > 0 {
                    StateSpec {
                        blocks: st.blocks.drop_last().push(
                            set_attribute_spec(st.blocks.last(), i),
                        ),
                        ..st
                    }
                } else {
                    st
                }
            },
            FindSpec::Item => {
                if st.blocks.len() > 0 {
                    StateSpec {
                        blocks: st.blocks.drop_last().push(set_item_spec(st.blocks.last(), i)),
                        ..st
                    }
                } else {
                    st
                }
            },
            FindSpec::Start => {
                if st.blocks.len() > 0 && can_set_start(st.blocks.last()) {
                    StateSpec {
                        blocks: st.blocks.drop_last().push(set_start_spec(st.blocks.last(), i)),
                        ..st
                    }
                } else {
                    StateSpec { warnings: st.warnings.push(Warning::UnexpectedStart(i)), ..st }
                }
            },
            FindSpec::End(name) => {
                if st.blocks.len() > 0 && can_set_end(st.blocks.last()) {
                    let set = StateSpec {
                        blocks: st.blocks.drop_last().push(set_end_spec(st.blocks.last(), i)),
                        ..st
                    };
                    if st.blocks.last().name != name {
                        StateSpec { warnings: st.warnings.push(Warning::NameMismatch(i)), ..set }
                    } else {
                        set
                    }
                } else {
                    StateSpec { warnings: st.warnings.push(Warning::UnexpectedEnd(i)), ..st }
                }
            },
        }
    }
}

/// The engine run over the lines from index `k` on.
pub open spec fn run_spec(lines: Seq<Seq<u8>>, k: int, st: StateSpec) -> StateSpec
    decreases lines.len() - k,
{
    if k < 0 || k >= lines.len() {
        st
    } else {
        run_spec(lines, k + 1, step_spec(st, classify_spec(lines[k]), k as usize))
    }
}

/// End of input: the last open region, if any, is validated once more; a
/// violation yields the fatal error with no trigger line.
pub open spec fn finalize_spec(st: StateSpec) -> StateSpec {
    if st.error is Some {
        st
    } else if st.blocks.len() > 0 {
        match is_valid_spec(st.blocks.last()) {
            Err(e) => StateSpec {
                blocks: st.blocks.drop_last(),
                error: Some((e, st.blocks.last(), None)),
                ..st
            },
            Ok(u) => st,
        }
    } else {
        st
    }
}

/// The whole engine: every line in order, then the final validation.
pub open spec fn parse_spec(lines: Seq<Seq<u8>>, st0: StateSpec) -> StateSpec {
    finalize_spec(run_spec(lines, 0, st0))
}

/// A recorded error freezes the rest of the run.
pub proof fn lemma_run_error_stable(lines: Seq<Seq<u8>>, k: int, st: StateSpec)
    requires
        st.error is Some,
    ensures
        run_spec(lines, k, st) == st,
    decreases lines.len() - k,
{
    if 0 <= k && k < lines.len() {
        assert(step_spec(st, classify_spec(lines[k]), k as usize) == st);
        lemma_run_error_stable(lines, k + 1, st);
    }
}

fn bytes_eq(a: &[u8], b: &[u8]) -> (r: bool)
    ensures
        r == (a@ == b@),
{
    if a.len() != b.len() {
        return false;
    }
    let mut i: usize = 0;
    while i < a.len()
        invariant
            i <= a@.len(),
            a@.len() == b@.len(),
            forall|j: int| 0 <= j < i ==> a@[j] == b@[j],
        decreases a@.len() - i,
    {
        if a[i] != b[i] {
            return false;
        }
        i = i + 1;
    }
    proof {
        assert(a@ =~= b@);
    }
    true
}

fn split_lines<'a>(s: &'a [u8]) -> (v: Vec<&'a [u8]>)
    ensures
        line_views(v@) == lines_spec(s@),
{
    let mut v: Vec<&'a [u8]> = Vec::new();
    let mut start: usize = 0;
    let mut p: usize = 0;
    proof {
        assert(line_views(v@) =~= Seq::<Seq<u8>>::empty());
    }
    while p < s.len()
        invariant
            start <= p,
            p <= s@.len(),
            lines_spec(s@) == lines_rec(s@, start as int, p as int, line_views(v@)),
        decreases s@.len() - p,
    {
        if s[p] == 10 {
            let ghost full = s@.subrange(start as int, p as int);
            let line: &'a [u8] = if p > start && s[p - 1] == 13 {
                proof {
                    assert(full[p - start - 1] == s@[p - 1]);
                    assert(full.drop_last() =~= s@.subrange(start as int, p as int - 1));
                }
                slice_subrange(s, start, p - 1)
            } else {
                proof {
                    if p > start {
                        assert(full[p - start - 1] == s@[p - 1]);
                    }
                }
                slice_subrange(s, start, p)
            };
            proof {
                assert(line@ == strip_cr(full));
            }
            let ghost pre = v@;
            v.push(line);
            proof {
                assert(line_views(v@) =~= line_views(pre).push(line@));
            }
            start = p + 1;
            p = p + 1;
        } else {
            p = p + 1;
        }
    }
    if start < p {
        let line = slice_subrange(s, start, s.len());
        let ghost pre = v@;
        v.push(line);
        proof {
            assert(line_views(v@) =~= line_views(pre).push(line@));
        }
    }
    v
}

impl<'a> View for Parser<'a> {
    type V = ParserView;

    open spec fn view(&self) -> ParserView {
        ParserView {
            content: self.content@,
            blocks: blocks_view(self.blocks@),
            warnings: self.warnings@,
        }
    }
}

/// Mathematical image of a [`Parser`].
pub struct ParserView {
    pub content: Seq<u8>,
    pub blocks: Seq<BlockSpec>,
    pub warnings: Seq<Warning>,
}

impl<'a> Parser<'a> {
    /// A fresh parser over `content`, with no regions and no warnings yet.
    pub fn new(content: &'a [u8]) -> (r: Self)
        ensures
            r@.content == content@,
            r@.blocks == Seq::<BlockSpec>::empty(),
            r@.warnings == Seq::<Warning>::empty(),
    {
        let r = Self { content, blocks: Vec::new(), warnings: Vec::new() };
        proof {
            assert(blocks_view(r.blocks@) =~= Seq::<BlockSpec>::empty());
        }
        r
    }

    /// Run the engine over every line of the content in order. Returns the
    /// parser holding all regions and warnings exactly when the run records
    /// no fatal error; otherwise the error kind, the offending region
    /// (removed from the sequence) and the triggering call line, if any.
    pub fn parse(self) -> (r: Result<Parser<'a>, (BlockError, Block<'a>, Option<usize>)>)
        ensures
            ({
                let st = parse_spec(
                    lines_spec(self@.content),
                    init_state(self@.blocks, self@.warnings),
                );
                match r {
                    Ok(p) => {
                        &&& st.error is None
                        &&& p@.content == self@.content
                        &&& p@.blocks == st.blocks
                        &&& p@.warnings == st.warnings
                    },
                    Err((e, b, t)) => st.error == Some((e, b@, t)),
                }
            }),
    {
        let Parser { content, blocks, warnings } = self;
        let mut blocks = blocks;
        let mut warnings = warnings;
        let ghost st0 = init_state(blocks_view(blocks@), warnings@);
        let ghost lns = lines_spec(content@);
        let lines = split_lines(content);
        let mut i: usize = 0;
        while i < lines.len()
            invariant
                i <= lines@.len(),
                line_views(lines@) == lns,
                lns == lines_spec(content@),
                content@ == self@.content,
                st0 == init_state(self@.blocks, self@.warnings),
                run_spec(lns, 0, st0) == run_spec(
                    lns,
                    i as int,
                    init_state(blocks_view(blocks@), warnings@),
                ),
            decreases lines@.len() - i,
        {
            let line = lines[i];
            let ghost pre = init_state(blocks_view(blocks@), warnings@);
            proof {
                assert(line@ == line_views(lines@)[i as int]);
            }
            let tag = Matcher::find(line);
            let ghost tagv = classify_spec(lns[i as int]);
            match tag {
                Find::Empty => {
                    proof {
                        assert(init_state(blocks_view(blocks@), warnings@) == step_spec(
                            pre,
                            tagv,
                            i,
                        ));
                    }
                },
                Find::CallNoBang => {
                    warnings.push(Warning::CallNoBang(i));
                    proof {
                        assert(init_state(blocks_view(blocks@), warnings@) == step_spec(
                            pre,
                            tagv,
                            i,
                        ));
                    }
                },
                Find::EndNoBang => {
                    warnings.push(Warning::EndNoBang(i));
                    proof {
                        assert(init_state(blocks_view(blocks@), warnings@) == step_spec(
                            pre,
                            tagv,
                            i,
                        ));
                    }
                },
                Find::Call(name) => {
                    if blocks.len() > 0 {
                        let lastb = blocks[blocks.len() - 1];
                        proof {
                            assert(lastb@ == pre.blocks.last());
                        }
                        if let Err(e) = lastb.is_valid() {
                            let popped = blocks.pop().unwrap();
                            let ghost errst = StateSpec {
                                blocks: pre.blocks.drop_last(),
                                warnings: pre.warnings,
                                error: Some((e, pre.blocks.last(), Some(i))),
                            };
                            proof {
                                assert(blocks_view(blocks@) =~= pre.blocks.drop_last());
                                assert(step_spec(pre, tagv, i) == errst);
                                assert(run_spec(lns, i as int, pre) == run_spec(
                                    lns,
                                    i as int + 1,
                                    errst,
                                ));
                                lemma_run_error_stable(lns, i as int + 1, errst);
                                assert(finalize_spec(errst) == errst);
                            }
                            return Err((e, popped, Some(i)));
                        }
                    }
                    blocks.push(Block::new(name, i));
                    proof {
                        let ghost pushed = blocks_view(blocks@);
                        assert(pushed =~= pre.blocks.push(new_spec(name@, i)));
                        assert(init_state(pushed, warnings@) == step_spec(pre, tagv, i));
                    }
                },
                Find::Attribute => {
                    if blocks.len() > 0 {
                        let mut b = blocks.pop().unwrap();
                        proof {
                            assert(b@ == pre.blocks.last());
                        }
                        b.set_attribute(i);
                        blocks.push(b);
                        proof {
                            assert(blocks_view(blocks@) =~= pre.blocks.drop_last().push(
                                set_attribute_spec(pre.blocks.last(), i),
                            ));
                        }
                    }
                    proof {
                        assert(init_state(blocks_view(blocks@), warnings@) == step_spec(
                            pre,
                            tagv,
                            i,
                        ));
                    }
                },
                Find::Item => {
                    if blocks.len() > 0 {
                        let mut b = blocks.pop().unwrap();
                        proof {
                            assert(b@ == pre.blocks.last());
                        }
                        b.set_item(i);
                        blocks.push(b);
                        proof {
                            assert(blocks_view(blocks@) =~= pre.blocks.drop_last().push(
                                set_item_spec(pre.blocks.last(), i),
                            ));
                        }
                    }
                    proof {
                        assert(init_state(blocks_view(blocks@), warnings@) == step_spec(
                            pre,
                            tagv,
                            i,
                        ));
                    }
                },
                Find::Start => {
                    if blocks.len() > 0 {
                        let mut b = blocks.pop().unwrap();
                        proof {
                            assert(b@ == pre.blocks.last());
                        }
                        let res = b.set_start(i);
                        blocks.push(b);
                        if res.is_err() {
                            warnings.push(Warning::UnexpectedStart(i));
                            proof {
                                assert(blocks_view(blocks@) =~= pre.blocks);
                            }
                        } else {
                            proof {
                                assert(blocks_view(blocks@) =~= pre.blocks.drop_last().push(
                                    set_start_spec(pre.blocks.last(), i),
                                ));
                            }
                        }
                    } else {
                        warnings.push(Warning::UnexpectedStart(i));
                    }
                    proof {
                        assert(init_state(blocks_view(blocks@), warnings@) == step_spec(
                            pre,
                            tagv,
                            i,
                        ));
                    }
                },
                Find::End(name) => {
                    if blocks.len() > 0 {
                        let mut b = blocks.pop().unwrap();
                        proof {
                            assert(b@ == pre.blocks.last());
                        }
                        let same_name = bytes_eq(b.name, name);
                        let res = b.set_end(i);
                        blocks.push(b);
                        if res.is_err() {
                            warnings.push(Warning::UnexpectedEnd(i));
                            proof {
                                assert(blocks_view(blocks@) =~= pre.blocks);
                            }
                        } else {
                            if !same_name {
                                warnings.push(Warning::NameMismatch(i));
                            }
                            proof {
                                assert(blocks_view(blocks@) =~= pre.blocks.drop_last().push(
                                    set_end_spec(pre.blocks.last(), i),
                                ));
                            }
                        }
                    } else {
                        warnings.push(Warning::UnexpectedEnd(i));
                    }
                    proof {
                        assert(init_state(blocks_view(blocks@), warnings@) == step_spec(
                            pre,
                            tagv,
                            i,
                        ));
                    }
                },
            }
            proof {
                assert(run_spec(lns, i as int, pre) == run_spec(
                    lns,
                    i as int + 1,
                    step_spec(pre, tagv, i),
                ));
            }
            i = i + 1;
        }
        let ghost cur = init_state(blocks_view(blocks@), warnings@);
        proof {
            assert(run_spec(lns, i as int, cur) == cur);
        }
        if blocks.len() > 0 {
            let lastb = blocks[blocks.len() - 1];
            proof {
                assert(lastb@ == cur.blocks.last());
            }
            if let Err(e) = lastb.is_valid() {
                let popped = blocks.pop().unwrap();
                proof {
                    assert(finalize_spec(cur) == StateSpec {
                        blocks: cur.blocks.drop_last(),
                        warnings: cur.warnings,
                        error: Some((e, cur.blocks.last(), None)),
                    });
                }
                return Err((e, popped, None));
            }
        }
        proof {
            assert(finalize_spec(cur) == cur);
        }
        Ok(Parser { content, blocks, warnings })
    }
}

} // verus!
