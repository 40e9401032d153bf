//! Batches of arena commands, run in order against one arena.
use vstd::prelude::*;
use crate::arena::{AllocatorHandler, ArenaView, EditRejection, allocated, searched, edited};

verus! {

/// Most commands a batch may hold; a longer batch is skipped whole.
pub const MAX_HEAP_DEV_COUNT: usize = 6;

/// One arena command.
#[derive(Debug, Clone)]
pub enum HeapCommand {
    /// Append a block of `size` payload bytes.
    Allocate { size: u64 },
    /// Write `data` over block `index`, cutting it to `data`'s length when
    /// `resize` is set and `data` is shorter.
    Edit { index: u64, data: Vec<u8>, resize: bool },
    /// Report block `index`'s length and payload offset.
    Search { index: u64 },
}

/// A batch of commands.
#[derive(Debug, Clone)]
pub struct HeapKit {
    pub commands: Vec<HeapCommand>,
}

/// What one command did.
#[derive(Debug, Clone, Copy, PartialEq, Eq)]
pub enum CommandOutcome {
    /// The payload offset of the new block, or `None` when it did not fit.
    Allocated(Option<u64>),
    /// Whether the edit was applied.
    Edited(Result<(), EditRejection>),
    /// The length and payload offset found for `index` (`(0, 0)` past the chain).
    Found { index: u64, length: u64, payload: u64 },
}

/// What a batch did.
#[derive(Debug, Clone, PartialEq, Eq)]
pub enum BatchOutcome {
    /// The batch held too many commands and none was run.
    Skipped,
    /// Every command ran, in order; one outcome each.
    Executed(Vec<CommandOutcome>),
}

/// Running one command on `m`.
pub open spec fn step(m: ArenaView, c: HeapCommand) -> (ArenaView, CommandOutcome) {
    match c {
        HeapCommand::Allocate { size } => {
            let (m2, p) = allocated(m, size);
            (m2, CommandOutcome::Allocated(p))
        },
        HeapCommand::Edit { index, data, resize } => {
            let pos = searched(m.region, index as nat).1;
            let (region, e) = edited(m.region, pos, data@, resize);
            (ArenaView { region, frontier: m.frontier }, CommandOutcome::Edited(e))
        },
        HeapCommand::Search { index } => {
            let (length, payload) = searched(m.region, index as nat);
            (m, CommandOutcome::Found { index, length, payload })
        },
    }
}

/// Running `cs` in order on `m`: the arena after them and each one's outcome.
pub open spec fn run(m: ArenaView, cs: Seq<HeapCommand>) -> (ArenaView, Seq<CommandOutcome>)
    decreases cs.len(),
{
    if cs.len() == 0 {
        (m, Seq::empty())
    } else {
        let (m1, outs) = run(m, cs.drop_last());
        let (m2, o) = step(m1, cs.last());
        (m2, outs.push(o))
    }
}

/// Runs one command.
pub fn run_command(arena: &mut AllocatorHandler, c: &HeapCommand) -> (r: CommandOutcome)
    requires
        old(arena).wf(),
    ensures
        final(arena).wf(),
        (final(arena)@, r) == step(old(arena)@, *c),
{
    match c {
        HeapCommand::Allocate { size } => CommandOutcome::Allocated(arena.allocate(*size)),
        HeapCommand::Edit { index, data, resize } => {
            let (_, pos) = arena.search(*index);
            CommandOutcome::Edited(arena.edit(pos, data.as_slice(), *resize))
        },
        HeapCommand::Search { index } => {
            let (length, payload) = arena.search(*index);
            CommandOutcome::Found { index: *index, length, payload }
        },
    }
}

/// Runs a batch: a batch of more than `MAX_HEAP_DEV_COUNT` commands is skipped
/// and leaves the arena as it was; any other runs whole, in order.
pub fn heap_kit(arena: &mut AllocatorHandler, kit: &HeapKit) -> (r: BatchOutcome)
    requires
        old(arena).wf(),
    ensures
        final(arena).wf(),
        kit.commands@.len() > MAX_HEAP_DEV_COUNT ==> r == BatchOutcome::Skipped && final(arena)@
            == old(arena)@,
        kit.commands@.len() <= MAX_HEAP_DEV_COUNT ==> (r matches BatchOutcome::Executed(outs) && (
        final(arena)@, outs@) == run(old(arena)@, kit.commands@)),
{
    if kit.commands.len() > MAX_HEAP_DEV_COUNT {
        return BatchOutcome::Skipped;
    }
    let mut outs: Vec<CommandOutcome> = Vec::new();
    let mut i: usize = 0;
    while i < kit.commands.len()
        invariant
            i <= kit.commands@.len(),
            arena.wf(),
            (arena@, outs@) == run(old(arena)@, kit.commands@.take(i as int)),
        decreases kit.commands@.len() - i,
    {
        let o = run_command(arena, &kit.commands[i]);
        proof {
            assert(kit.commands@.take(i + 1).drop_last() =~= kit.commands@.take(i as int));
        }
        outs.push(o);
        i = i + 1;
    }
    assert(kit.commands@.take(i as int) =~= kit.commands@);
    BatchOutcome::Executed(outs)
}

} // verus!
