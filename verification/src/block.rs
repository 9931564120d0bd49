//! One detected invocation region and its field-level rules.
//!
//! A [`Block`] records, as 0-based line indices into the original text, where
//! the call line and the optional attribute, input-item, start-marker,
//! output-item and end-marker lines of one invocation span were seen. The
//! setters enforce the monotonic-set and precedence rules: attributes are
//! recorded only while still in the header phase, `start` and `end` are each
//! set at most once, and item lines are recorded as input before `start` and
//! as output between `start` and `end`.

use vstd::prelude::*;

verus! {

/// One invocation span in progress or finished. All indices are 0-based line
/// numbers; `name` is a borrowed view into the original text.
#[derive(Copy, Clone, Eq, PartialEq, Debug)]
pub struct Block<'a> {
    pub name: &'a [u8],
    pub call: usize,
    pub attributes: Option<usize>,
    pub items: Option<usize>,
    pub start: Option<usize>,
    pub output: Option<usize>,
    pub end: Option<usize>,
}

/// The two fatal structural errors a region can be in.
#[derive(Copy, Clone, Eq, PartialEq, Debug)]
pub enum BlockError {
    /// Input items were recorded but no start marker was ever seen.
    MissingStart,
    /// Output items were recorded but no end marker was ever seen.
    MissingEnd,
}

/// Mathematical image of a [`Block`]: the name is a byte sequence.
pub struct BlockSpec {
    pub name: Seq<u8>,
    pub call: usize,
    pub attributes: Option<usize>,
    pub items: Option<usize>,
    pub start: Option<usize>,
    pub output: Option<usize>,
    pub end: Option<usize>,
}

impl<'a> View for Block<'a> {
    type V = BlockSpec;

    open spec fn view(&self) -> BlockSpec {
        BlockSpec {
            name: self.name@,
            call: self.call,
            attributes: self.attributes,
            items: self.items,
            start: self.start,
            output: self.output,
            end: self.end,
        }
    }
}

/// A freshly opened region: only the call line is known.
pub open spec fn new_spec(name: Seq<u8>, call: usize) -> BlockSpec {
    BlockSpec {
        name,
        call,
        attributes: None,
        items: None,
        start: None,
        output: None,
        end: None,
    }
}

/// The first violated region invariant, `MissingStart` checked before
/// `MissingEnd`, or success.
pub open spec fn is_valid_spec(b: BlockSpec) -> Result<(), BlockError> {
    if b.items is Some && b.start is None {
        Err(BlockError::MissingStart)
    } else if b.output is Some && b.end is None {
        Err(BlockError::MissingEnd)
    } else {
        Ok(())
    }
}

/// An attribute line is recorded only while the region is still in its header
/// phase: no attributes, no items, no start yet. Otherwise nothing changes.
pub open spec fn set_attribute_spec(b: BlockSpec, i: usize) -> BlockSpec {
    if b.attributes is None && b.items is None && b.start is None {
        BlockSpec { attributes: Some(i), ..b }
    } else {
        b
    }
}

/// An item line is recorded as the first input item before `start`, as the
/// first output item between `start` and `end`, and not at all after `end`.
pub open spec fn set_item_spec(b: BlockSpec, i: usize) -> BlockSpec {
    if b.start is None {
        if b.items is None {
            BlockSpec { items: Some(i), ..b }
        } else {
            b
        }
    } else if b.end is None {
        if b.output is None {
            BlockSpec { output: Some(i), ..b }
        } else {
            b
        }
    } else {
        b
    }
}

/// A start marker may be recorded only while `start`, `output` and `end` are
/// all unset.
pub open spec fn can_set_start(b: BlockSpec) -> bool {
    b.start is None && b.output is None && b.end is None
}

/// The region after an attempt to record a start marker: set on success,
/// unchanged on failure.
pub open spec fn set_start_spec(b: BlockSpec, i: usize) -> BlockSpec {
    if can_set_start(b) {
        BlockSpec { start: Some(i), ..b }
    } else {
        b
    }
}

/// An end marker may be recorded only while `end` is unset.
pub open spec fn can_set_end(b: BlockSpec) -> bool {
    b.end is None
}

/// The region after an attempt to record an end marker: set on success,
/// unchanged on failure.
pub open spec fn set_end_spec(b: BlockSpec, i: usize) -> BlockSpec {
    if can_set_end(b) {
        BlockSpec { end: Some(i), ..b }
    } else {
        b
    }
}

impl<'a> Block<'a> {
    /// Open a region at the call line `call`, named `name`.
    pub fn new(name: &'a [u8], call: usize) -> (r: Self)
        ensures
            r@ == new_spec(name@, call),
    {
        Self {
            name,
            call,
            attributes: None,
            items: None,
            start: None,
            output: None,
            end: None,
        }
    }

    /// Report the first violated region invariant, or success.
    pub fn is_valid(&self) -> (r: Result<(), BlockError>)
        ensures
            r == is_valid_spec(self@),
    {
        if self.items.is_some() && self.start.is_none() {
            Err(BlockError::MissingStart)
        } else if self.output.is_some() && self.end.is_none() {
            Err(BlockError::MissingEnd)
        } else {
            Ok(())
        }
    }

    /// Record an attribute line, effective only in the header phase.
    pub fn set_attribute(&mut self, i: usize)
        ensures
            final(self)@ == set_attribute_spec(old(self)@, i),
    {
        if self.attributes.is_none() && self.items.is_none() && self.start.is_none() {
            self.attributes = Some(i);
        }
    }

    /// Record an item line as the first input or output item, as the phase
    /// dictates.
    pub fn set_item(&mut self, i: usize)
        ensures
            final(self)@ == set_item_spec(old(self)@, i),
    {
        if self.start.is_none() {
            if self.items.is_none() {
                self.items = Some(i);
            }
        } else if self.end.is_none() {
            if self.output.is_none() {
                self.output = Some(i);
            }
        }
    }

    /// Record the start marker. Fails, without mutation, once `start`,
    /// `output` or `end` is set: a start marker is effective at most once.
    pub fn set_start(&mut self, i: usize) -> (r: Result<(), ()>)
        ensures
            final(self)@ == set_start_spec(old(self)@, i),
            r is Ok <==> can_set_start(old(self)@),
    {
        if self.start.is_some() || self.output.is_some() || self.end.is_some() {
            return Err(());
        }
        self.start = Some(i);
        Ok(())
    }

    /// Record the end marker. Fails, without mutation, once `end` is set: an
    /// end marker is effective at most once.
    pub fn set_end(&mut self, i: usize) -> (r: Result<(), ()>)
        ensures
            final(self)@ == set_end_spec(old(self)@, i),
            r is Ok <==> can_set_end(old(self)@),
    {
        if self.end.is_some() {
            return Err(());
        }
        self.end = Some(i);
        Ok(())
    }
}

} // verus!
