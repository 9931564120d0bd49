//! Lexical classification of a single line.
//!
//! `Matcher::find` maps one line of raw bytes to exactly one [`Find`] tag.
//! The grammar is positional on the left-trimmed line: a comment line (`//`)
//! whose body begins with the call marker `@den::` is a call, one whose body
//! begins with the fence marker (three backticks, `@den`, three backticks) is
//! a start marker, or an end marker when `end:` follows the fence. Any other
//! comment line is an attribute; any non-comment line is an item when it has
//! non-whitespace content and empty otherwise.

use vstd::prelude::*;
use vstd::slice::slice_subrange;

verus! {

/// The classification of one input line. Names are borrowed views into the
/// line that was classified, trimmed of surrounding whitespace.
#[derive(Copy, Clone, Eq, PartialEq, Hash, Debug)]
pub enum Find<'a> {
    Call(&'a [u8]),
    CallNoBang,
    Attribute,
    Item,
    Start,
    End(&'a [u8]),
    EndNoBang,
    Empty,
}

/// Mathematical image of [`Find`]: names are byte sequences.
pub enum FindSpec {
    Call(Seq<u8>),
    CallNoBang,
    Attribute,
    Item,
    Start,
    End(Seq<u8>),
    EndNoBang,
    Empty,
}

impl<'a> View for Find<'a> {
    type V = FindSpec;

    open spec fn view(&self) -> FindSpec {
        match *self {
            Find::Call(name) => FindSpec::Call(name@),
            Find::CallNoBang => FindSpec::CallNoBang,
            Find::Attribute => FindSpec::Attribute,
            Find::Item => FindSpec::Item,
            Find::Start => FindSpec::Start,
            Find::End(name) => FindSpec::End(name@),
            Find::EndNoBang => FindSpec::EndNoBang,
            Find::Empty => FindSpec::Empty,
        }
    }
}

/// ASCII whitespace: space, tab, line feed, vertical tab, form feed,
/// carriage return.
pub open spec fn is_space(b: u8) -> bool {
    b == 32 || b == 9 || b == 10 || b == 11 || b == 12 || b == 13
}

/// The sequence with its leading whitespace removed.
pub open spec fn trim_start_spec(s: Seq<u8>) -> Seq<u8>
    decreases s.len(),
{
    if s.len() > 0 && is_space(s[0]) {
        trim_start_spec(s.drop_first())
    } else {
        s
    }
}

/// The sequence with its trailing whitespace removed.
pub open spec fn trim_end_spec(s: Seq<u8>) -> Seq<u8>
    decreases s.len(),
{
    if s.len() > 0 && is_space(s[s.len() - 1]) {
        trim_end_spec(s.drop_last())
    } else {
        s
    }
}

/// The sequence with whitespace removed at both ends.
pub open spec fn trim_spec(s: Seq<u8>) -> Seq<u8> {
    trim_end_spec(trim_start_spec(s))
}

/// `s` begins with the prefix `p`.
pub open spec fn starts_with(s: Seq<u8>, p: Seq<u8>) -> bool {
    p.len() <= s.len() && forall|j: int| 0 <= j < p.len() ==> s[j] == p[j]
}

/// The bytes of `//`.
pub open spec fn comment_marker() -> Seq<u8> {
    seq![47u8, 47u8]
}

/// The bytes of `@den::`.
pub open spec fn call_marker() -> Seq<u8> {
    seq![64u8, 100u8, 101u8, 110u8, 58u8, 58u8]
}

/// The bytes of the fence: three backticks, `@den`, three backticks.
pub open spec fn fence_marker() -> Seq<u8> {
    seq![96u8, 96u8, 96u8, 64u8, 100u8, 101u8, 110u8, 96u8, 96u8, 96u8]
}

/// The bytes of `end:`.
pub open spec fn end_marker() -> Seq<u8> {
    seq![101u8, 110u8, 100u8, 58u8]
}

/// The index of the first `!` (byte 33) in `s`, if any.
pub open spec fn find_bang(s: Seq<u8>) -> Option<int>
    decreases s.len(),
{
    if s.len() == 0 {
        None
    } else if s[0] == 33 {
        Some(0)
    } else {
        match find_bang(s.drop_first()) {
            Some(k) => Some(k + 1),
            None => None,
        }
    }
}

/// The tag of one line: the lexical grammar of the annotation language,
/// checked in order on the left-trimmed line.
pub open spec fn classify_spec(line: Seq<u8>) -> FindSpec {
    let t = trim_start_spec(line);
    if starts_with(t, comment_marker()) {
        let body = trim_start_spec(t.subrange(2, t.len() as int));
        if starts_with(body, call_marker()) {
            match find_bang(body) {
                Some(k) => FindSpec::Call(trim_spec(body.subrange(6, k))),
                None => FindSpec::CallNoBang,
            }
        } else if starts_with(body, fence_marker()) {
            let rest = trim_start_spec(body.subrange(10, body.len() as int));
            if starts_with(rest, end_marker()) {
                match find_bang(rest) {
                    Some(k) => FindSpec::End(trim_spec(rest.subrange(4, k))),
                    None => FindSpec::EndNoBang,
                }
            } else {
                FindSpec::Start
            }
        } else {
            FindSpec::Attribute
        }
    } else {
        if trim_end_spec(t).len() > 0 {
            FindSpec::Item
        } else {
            FindSpec::Empty
        }
    }
}

fn is_space_ex(b: u8) -> (r: bool)
    ensures
        r == is_space(b),
{
    b == 32 || b == 9 || b == 10 || b == 11 || b == 12 || b == 13
}

fn trim_start_slice<'a>(s: &'a [u8]) -> (r: &'a [u8])
    ensures
        r@ == trim_start_spec(s@),
{
    let mut i: usize = 0;
    proof {
        assert(s@.subrange(0, s@.len() as int) =~= s@);
    }
    while i < s.len() && is_space_ex(s[i])
        invariant
            i <= s@.len(),
            trim_start_spec(s@) == trim_start_spec(s@.subrange(i as int, s@.len() as int)),
        decreases s@.len() - i,
    {
        proof {
            let t = s@.subrange(i as int, s@.len() as int);
            assert(t[0] == s@[i as int]);
            assert(t.drop_first() =~= s@.subrange(i as int + 1, s@.len() as int));
        }
        i = i + 1;
    }
    proof {
        let t = s@.subrange(i as int, s@.len() as int);
        if t.len() > 0 {
            assert(t[0] == s@[i as int]);
        }
        assert(trim_start_spec(t) == t);
    }
    slice_subrange(s, i, s.len())
}

fn trim_end_slice<'a>(s: &'a [u8]) -> (r: &'a [u8])
    ensures
        r@ == trim_end_spec(s@),
{
    let mut j: usize = s.len();
    proof {
        assert(s@.subrange(0, s@.len() as int) =~= s@);
    }
    while j > 0 && is_space_ex(s[j - 1])
        invariant
            j <= s@.len(),
            trim_end_spec(s@) == trim_end_spec(s@.subrange(0, j as int)),
        decreases j,
    {
        proof {
            let t = s@.subrange(0, j as int);
            assert(t[j - 1] == s@[j - 1]);
            assert(t.drop_last() =~= s@.subrange(0, j as int - 1));
        }
        j = j - 1;
    }
    proof {
        let t = s@.subrange(0, j as int);
        if t.len() > 0 {
            assert(t[j - 1] == s@[j - 1]);
        }
        assert(trim_end_spec(t) == t);
    }
    slice_subrange(s, 0, j)
}

fn trim_slice<'a>(s: &'a [u8]) -> (r: &'a [u8])
    ensures
        r@ == trim_spec(s@),
{
    trim_end_slice(trim_start_slice(s))
}

proof fn lemma_find_bang_at(s: Seq<u8>, i: int)
    requires
        0 <= i < s.len(),
        forall|j: int| 0 <= j < i ==> s[j] != 33,
        s[i] == 33,
    ensures
        find_bang(s) == Some(i),
    decreases i,
{
    if i > 0 {
        assert(s[0] != 33);
        assert(forall|j: int| 0 <= j < i - 1 ==> s.drop_first()[j] == s[j + 1]);
        lemma_find_bang_at(s.drop_first(), i - 1);
    }
}

proof fn lemma_find_bang_none(s: Seq<u8>)
    requires
        forall|j: int| 0 <= j < s.len() ==> s[j] != 33,
    ensures
        find_bang(s) == None::<int>,
    decreases s.len(),
{
    if s.len() > 0 {
        assert(forall|j: int| 0 <= j < s.len() - 1 ==> s.drop_first()[j] == s[j + 1]);
        lemma_find_bang_none(s.drop_first());
    }
}

fn find_bang_ex(s: &[u8]) -> (r: Option<usize>)
    ensures
        match r {
            Some(k) => {
                &&& k < s@.len()
                &&& s@[k as int] == 33
                &&& forall|j: int| 0 <= j < k ==> s@[j] != 33
                &&& find_bang(s@) == Some(k as int)
            },
            None => find_bang(s@) == None::<int>,
        },
{
    let mut i: usize = 0;
    while i < s.len()
        invariant
            i <= s@.len(),
            forall|j: int| 0 <= j < i ==> s@[j] != 33,
        decreases s@.len() - i,
    {
        if s[i] == 33 {
            proof {
                lemma_find_bang_at(s@, i as int);
            }
            return Some(i);
        }
        i = i + 1;
    }
    proof {
        lemma_find_bang_none(s@);
    }
    None
}

fn has_comment_marker(s: &[u8]) -> (r: bool)
    ensures
        r == starts_with(s@, comment_marker()),
{
    let r = s.len() >= 2 && s[0] == 47 && s[1] == 47;
    proof {
        assert(comment_marker()[0] == 47 && comment_marker()[1] == 47);
        if !r && starts_with(s@, comment_marker()) {
            assert(s@[0] == comment_marker()[0]);
            assert(s@[1] == comment_marker()[1]);
        }
    }
    r
}

fn has_call_marker(s: &[u8]) -> (r: bool)
    ensures
        r == starts_with(s@, call_marker()),
{
    let r = s.len() >= 6 && s[0] == 64 && s[1] == 100 && s[2] == 101 && s[3] == 110 && s[4] == 58
        && s[5] == 58;
    proof {
        assert(call_marker()[0] == 64 && call_marker()[1] == 100 && call_marker()[2] == 101
            && call_marker()[3] == 110 && call_marker()[4] == 58 && call_marker()[5] == 58);
        if !r && starts_with(s@, call_marker()) {
            assert(s@[0] == call_marker()[0]);
            assert(s@[1] == call_marker()[1]);
            assert(s@[2] == call_marker()[2]);
            assert(s@[3] == call_marker()[3]);
            assert(s@[4] == call_marker()[4]);
            assert(s@[5] == call_marker()[5]);
        }
    }
    r
}

fn has_fence_marker(s: &[u8]) -> (r: bool)
    ensures
        r == starts_with(s@, fence_marker()),
{
    let r = s.len() >= 10 && s[0] == 96 && s[1] == 96 && s[2] == 96 && s[3] == 64 && s[4] == 100
        && s[5] == 101 && s[6] == 110 && s[7] == 96 && s[8] == 96 && s[9] == 96;
    proof {
        assert(fence_marker()[0] == 96 && fence_marker()[1] == 96 && fence_marker()[2] == 96
            && fence_marker()[3] == 64 && fence_marker()[4] == 100 && fence_marker()[5] == 101
            && fence_marker()[6] == 110 && fence_marker()[7] == 96 && fence_marker()[8] == 96
            && fence_marker()[9] == 96);
        if !r && starts_with(s@, fence_marker()) {
            assert(s@[0] == fence_marker()[0]);
            assert(s@[1] == fence_marker()[1]);
            assert(s@[2] == fence_marker()[2]);
            assert(s@[3] == fence_marker()[3]);
            assert(s@[4] == fence_marker()[4]);
            assert(s@[5] == fence_marker()[5]);
            assert(s@[6] == fence_marker()[6]);
            assert(s@[7] == fence_marker()[7]);
            assert(s@[8] == fence_marker()[8]);
            assert(s@[9] == fence_marker()[9]);
        }
    }
    r
}

fn has_end_marker(s: &[u8]) -> (r: bool)
    ensures
        r == starts_with(s@, end_marker()),
{
    let r = s.len() >= 4 && s[0] == 101 && s[1] == 110 && s[2] == 100 && s[3] == 58;
    proof {
        assert(end_marker()[0] == 101 && end_marker()[1] == 110 && end_marker()[2] == 100
            && end_marker()[3] == 58);
        if !r && starts_with(s@, end_marker()) {
            assert(s@[0] == end_marker()[0]);
            assert(s@[1] == end_marker()[1]);
            assert(s@[2] == end_marker()[2]);
            assert(s@[3] == end_marker()[3]);
        }
    }
    r
}

/// The classifier. It owns no state; classification is a pure function of the
/// line.
#[derive(Copy, Clone, Eq, PartialEq, Hash, Default, Debug)]
pub struct Matcher;

impl Matcher {
    /// Classify one line of raw bytes as exactly one tag.
    pub fn find<'a>(s: &'a [u8]) -> (r: Find<'a>)
        ensures
            r@ == classify_spec(s@),
    {
        let t = trim_start_slice(s);
        if has_comment_marker(t) {
            let body = trim_start_slice(slice_subrange(t, 2, t.len()));
            if has_call_marker(body) {
                match find_bang_ex(body) {
                    Some(k) => {
                        proof {
                            if (k as int) < 6 {
                                assert(body@[k as int] == call_marker()[k as int]);
                                assert(call_marker()[0] != 33 && call_marker()[1] != 33
                                    && call_marker()[2] != 33 && call_marker()[3] != 33
                                    && call_marker()[4] != 33 && call_marker()[5] != 33);
                            }
                        }
                        let name = trim_slice(slice_subrange(body, 6, k));
                        Find::Call(name)
                    },
                    None => Find::CallNoBang,
                }
            } else if has_fence_marker(body) {
                let rest = trim_start_slice(slice_subrange(body, 10, body.len()));
                if has_end_marker(rest) {
                    match find_bang_ex(rest) {
                        Some(k) => {
                            proof {
                                if (k as int) < 4 {
                                    assert(rest@[k as int] == end_marker()[k as int]);
                                    assert(end_marker()[0] != 33 && end_marker()[1] != 33
                                        && end_marker()[2] != 33 && end_marker()[3] != 33);
                                }
                            }
                            let name = trim_slice(slice_subrange(rest, 4, k));
                            Find::End(name)
                        },
                        None => Find::EndNoBang,
                    }
                } else {
                    Find::Start
                }
            } else {
                Find::Attribute
            }
        } else {
            let t2 = trim_end_slice(t);
            if t2.len() > 0 {
                Find::Item
            } else {
                Find::Empty
            }
        }
    }
}

} // verus!
