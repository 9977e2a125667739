//! Activations: the records of the code that is running.

use crate::avm1::scope::ScopeId;
use crate::value::ObjectId;
use vstd::prelude::*;

verus! {

/// A reference to a block of code: its index in the table of code.
pub type CodeId = usize;

/// The end of a `with` block that is under way: where its code ends, and
/// the scope that is current again behind it.
#[derive(Copy, Clone, Debug, PartialEq, Eq, Structural)]
pub struct WithEnd {
    pub end: usize,
    pub scope: ScopeId,
}

/// One run of a block of code: a timeline action or a call of a function.
#[derive(Debug)]
pub struct Activation {
    /// The version of the movie that the code comes from.
    pub swf_version: u8,
    /// The code that runs.
    pub code: CodeId,
    /// The position in the code of the action that runs next.
    pub pc: usize,
    /// The innermost scope.
    pub scope: ScopeId,
    /// The object that `this` refers to.
    pub this: Option<ObjectId>,
    /// The clip that the code belongs to.
    pub base_clip: ObjectId,
    /// The clip that timeline actions act on; none after a `tellTarget` that
    /// found no clip.
    pub target_clip: Option<ObjectId>,
    /// Whether the value that the code returns goes to the operand stack of
    /// the caller.
    pub can_return: bool,
    /// The `with` blocks that are under way, the outermost first.
    pub with_ends: Vec<WithEnd>,
}

#[verifier::ext_equal]
pub struct ActivationView {
    pub swf_version: u8,
    pub code: CodeId,
    pub pc: usize,
    pub scope: ScopeId,
    pub this: Option<ObjectId>,
    pub base_clip: ObjectId,
    pub target_clip: Option<ObjectId>,
    pub can_return: bool,
    pub with_ends: Seq<WithEnd>,
}

impl View for Activation {
    type V = ActivationView;

    open spec fn view(&self) -> ActivationView {
        ActivationView {
            swf_version: self.swf_version,
            code: self.code,
            pc: self.pc,
            scope: self.scope,
            this: self.this,
            base_clip: self.base_clip,
            target_clip: self.target_clip,
            can_return: self.can_return,
            with_ends: self.with_ends@,
        }
    }
}

impl Activation {
    /// An activation at the beginning of a block of code, with the clip it
    /// belongs to as its target.
    pub fn from_action(
        swf_version: u8,
        code: CodeId,
        scope: ScopeId,
        base_clip: ObjectId,
        this: Option<ObjectId>,
        can_return: bool,
    ) -> (r: Activation)
        ensures
            r@ == (ActivationView {
                swf_version,
                code,
                pc: 0,
                scope,
                this,
                base_clip,
                target_clip: Some(base_clip),
                can_return,
                with_ends: Seq::empty(),
            }),
    {
        Activation {
            swf_version,
            code,
            pc: 0,
            scope,
            this,
            base_clip,
            target_clip: Some(base_clip),
            can_return,
            with_ends: Vec::new(),
        }
    }

    pub fn swf_version(&self) -> (r: u8)
        ensures
            r == self@.swf_version,
    {
        self.swf_version
    }

    pub fn base_clip(&self) -> (r: ObjectId)
        ensures
            r == self@.base_clip,
    {
        self.base_clip
    }

    pub fn target_clip(&self) -> (r: Option<ObjectId>)
        ensures
            r == self@.target_clip,
    {
        self.target_clip
    }

    pub fn scope_cell(&self) -> (r: ScopeId)
        ensures
            r == self@.scope,
    {
        self.scope
    }

    pub fn can_return(&self) -> (r: bool)
        ensures
            r == self@.can_return,
    {
        self.can_return
    }
}

} // verus!
