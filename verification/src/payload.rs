//! The chained call protocol.
//!
//! A participant group may span interfaces declared in independently
//! processed units.  Each unit that owns a participant emits a deferred
//! expansion step; the accumulated state travels between steps as an
//! explicit positional payload: the crate identity, the version tag, the
//! remaining work list, the interface declarations and implementation
//! records gathered so far, the fuel budget and the mode flag.  Each step
//! folds in its own declaration and re-emits the same shape with itself
//! removed from the front of the work list, until only the final step
//! remains, which parses the payload into the engine's arguments.
//!
//! A version tag differing from the running system's own version is a hard
//! failure: two incompatible builds cannot safely share the rank and
//! trampoline machinery.

use vstd::prelude::*;

use crate::ast::{clone_paths, clone_trait_decl, Path, TraitDecl};
use crate::engine::FinalizeArgs;

verus! {

broadcast use {vstd::std_specs::vec::group_vec_axioms, vstd::seq::group_seq_axioms};

/// The version of the running system, as stamped into every payload.
#[derive(Clone, Copy, Debug, PartialEq, Eq, Structural)]
pub struct VersionTag {
    pub major: u64,
    pub minor: u64,
    pub patch: u64,
}

/// The version under which this build of the system operates.
pub open spec fn current_version() -> VersionTag {
    VersionTag { major: 0, minor: 5, patch: 1 }
}

/// The version tag of this build.
pub fn version_of_this_build() -> (v: VersionTag)
    ensures
        v == current_version(),
{
    VersionTag { major: 0, minor: 5, patch: 1 }
}

/// A failure of the chained call protocol.
#[derive(Clone, Copy, Debug, PartialEq, Eq, Structural)]
pub enum ProtocolError {
    /// The payload was stamped by an incompatible build of this system.
    VersionMismatch,
    /// The work list does not hold the consuming step and a next step.
    MalformedWorkList,
}

/// The positional payload carried between deferred expansion steps.
pub struct Payload {
    /// The crate identity under which the payload was emitted; carried but
    /// not interpreted.
    pub identity: Vec<u8>,
    /// The version tag of the emitting build.
    pub version: VersionTag,
    /// The remaining deferred steps, the final step last.
    pub working_list: Vec<Path>,
    /// The participant declarations gathered so far.
    pub traits: Vec<TraitDecl>,
    /// The implementation records gathered so far.
    pub contents: Vec<crate::ast::ImplRecord>,
    /// The fuel budget.
    pub recurse_level: usize,
    /// The mode flag.
    pub support_infinite_cycle: bool,
}

impl FinalizeArgs {
    /// The final step: parses the payload into the engine's arguments.
    /// A payload stamped with any version other than the running system's
    /// own is rejected before anything is produced.
    pub fn parse(input: Payload) -> (r: Result<FinalizeArgs, ProtocolError>)
        ensures
            input.version == current_version() <==> r is Ok,
            r matches Ok(a) ==> a.working_list == input.working_list && a.traits == input.traits
                && a.contents == input.contents && a.recurse_level == input.recurse_level
                && a.support_infinite_cycle == input.support_infinite_cycle,
            r matches Err(e) ==> e == ProtocolError::VersionMismatch,
    {
        let expected = version_of_this_build();
        if input.version != expected {
            return Err(ProtocolError::VersionMismatch);
        }
        Ok(
            FinalizeArgs {
                working_list: input.working_list,
                traits: input.traits,
                contents: input.contents,
                recurse_level: input.recurse_level,
                support_infinite_cycle: input.support_infinite_cycle,
            },
        )
    }

    /// Re-emits the engine's arguments as a payload, stamped with the
    /// running system's identity and version, so that parsing what was
    /// emitted yields the arguments back.
    pub fn to_tokens(&self) -> (p: Payload)
        ensures
            p.version == current_version(),
            p.identity@ == crate::names::crate_identity_bytes(),
            crate::ast::paths_view(p.working_list@) == crate::ast::paths_view(self.working_list@),
            crate::ast::traits_view(p.traits@) == crate::ast::traits_view(self.traits@),
            crate::ast::records_view(p.contents@) == crate::ast::records_view(self.contents@),
            p.recurse_level == self.recurse_level,
            p.support_infinite_cycle == self.support_infinite_cycle,
    {
        let mut traits: Vec<TraitDecl> = Vec::new();
        let mut i: usize = 0;
        while i < self.traits.len()
            invariant
                i <= self.traits@.len(),
                traits@.len() == i,
                forall|j: int| 0 <= j < i ==> (#[trigger] traits@[j])@ == self.traits@[j]@,
            decreases self.traits@.len() - i,
        {
            traits.push(clone_trait_decl(&self.traits[i]));
            i += 1;
        }
        let mut contents: Vec<crate::ast::ImplRecord> = Vec::new();
        let mut i: usize = 0;
        while i < self.contents.len()
            invariant
                i <= self.contents@.len(),
                contents@.len() == i,
                forall|j: int| 0 <= j < i ==> (#[trigger] contents@[j])@ == self.contents@[j]@,
            decreases self.contents@.len() - i,
        {
            contents.push(crate::ast::clone_record(&self.contents[i]));
            i += 1;
        }
        let p = Payload {
            identity: crate::names::get_crate_identity(),
            version: version_of_this_build(),
            working_list: clone_paths(&self.working_list),
            traits,
            contents,
            recurse_level: self.recurse_level,
            support_infinite_cycle: self.support_infinite_cycle,
        };
        proof {
            assert(crate::ast::traits_view(p.traits@) =~= crate::ast::traits_view(self.traits@));
            assert(crate::ast::records_view(p.contents@) =~= crate::ast::records_view(
                self.contents@,
            ));
        }
        p
    }
}

/// One deferred step: checks the version, removes itself from the front of
/// the work list, folds its own declaration in at the front of the gathered
/// declarations, and re-emits the same shape for the next step.
pub fn fold_step(input: Payload, own: TraitDecl) -> (r: Result<Payload, ProtocolError>)
    ensures
        r matches Err(e) ==> (e == ProtocolError::VersionMismatch && input.version
            != current_version()) || (e == ProtocolError::MalformedWorkList
            && input.working_list@.len() < 2),
        r matches Ok(q) ==> {
            &&& input.version == current_version()
            &&& input.working_list@.len() >= 2
            &&& q.version == current_version()
            &&& q.working_list@ == input.working_list@.drop_first()
            &&& q.traits@ == seq![own].add(input.traits@)
            &&& q.contents@ == input.contents@
            &&& q.recurse_level == input.recurse_level
            &&& q.support_infinite_cycle == input.support_infinite_cycle
        },
        input.version == current_version() && input.working_list@.len() >= 2 ==> r is Ok,
{
    let expected = version_of_this_build();
    if input.version != expected {
        return Err(ProtocolError::VersionMismatch);
    }
    if input.working_list.len() < 2 {
        return Err(ProtocolError::MalformedWorkList);
    }
    let mut working_list = input.working_list;
    working_list.remove(0);
    let mut traits = input.traits;
    traits.insert(0, own);
    proof {
        assert(traits@ =~= seq![own].add(traits@.drop_first()));
    }
    Ok(
        Payload {
            identity: input.identity,
            version: expected,
            working_list,
            traits,
            contents: input.contents,
            recurse_level: input.recurse_level,
            support_infinite_cycle: input.support_infinite_cycle,
        },
    )
}

} // verus!
