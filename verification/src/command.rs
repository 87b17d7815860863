use vstd::prelude::*;

verus! {

/// A command posted to the PipeWire thread after a profile mutation.
#[derive(Clone, Copy, Debug, PartialEq, Eq, Structural)]
pub enum PwCommand {
    /// Re-evaluate the route of every stream.
    ReevaluateAll,
    /// Re-evaluate per-app level control (Layer A).
    ReevaluateLayerA,
}

/// How many times `c` occurs in `cmds`.
pub open spec fn count_of(cmds: Seq<PwCommand>, c: PwCommand) -> nat
    decreases cmds.len(),
{
    if cmds.len() == 0 {
        0
    } else {
        count_of(cmds.drop_last(), c) + if cmds.last() == c {
            1nat
        } else {
            0nat
        }
    }
}

/// Route re-evaluation alone.
pub open spec fn route_reapply() -> Seq<PwCommand> {
    seq![PwCommand::ReevaluateAll]
}

/// Layer A re-evaluation alone.
pub open spec fn layer_a_reapply() -> Seq<PwCommand> {
    seq![PwCommand::ReevaluateLayerA]
}

/// Route re-evaluation, then Layer A re-evaluation.
pub open spec fn route_and_layer_a_reapply() -> Seq<PwCommand> {
    seq![PwCommand::ReevaluateAll, PwCommand::ReevaluateLayerA]
}

/// Builds the command list `route_reapply()`.
pub fn route_reapply_commands() -> (cmds: Vec<PwCommand>)
    ensures
        cmds@ == route_reapply(),
{
    let mut cmds: Vec<PwCommand> = Vec::new();
    cmds.push(PwCommand::ReevaluateAll);
    cmds
}

/// Builds the command list `layer_a_reapply()`.
pub fn layer_a_reapply_commands() -> (cmds: Vec<PwCommand>)
    ensures
        cmds@ == layer_a_reapply(),
{
    let mut cmds: Vec<PwCommand> = Vec::new();
    cmds.push(PwCommand::ReevaluateLayerA);
    cmds
}

/// Builds the command list `route_and_layer_a_reapply()`.
pub fn route_and_layer_a_reapply_commands() -> (cmds: Vec<PwCommand>)
    ensures
        cmds@ == route_and_layer_a_reapply(),
{
    let mut cmds: Vec<PwCommand> = Vec::new();
    cmds.push(PwCommand::ReevaluateAll);
    cmds.push(PwCommand::ReevaluateLayerA);
    cmds
}

fn count_command(cmds: &[PwCommand], target: PwCommand) -> (n: usize)
    ensures
        n == count_of(cmds@, target),
{
    let mut n: usize = 0;
    let mut i: usize = 0;
    while i < cmds.len()
        invariant
            i <= cmds@.len(),
            n <= i,
            n == count_of(cmds@.take(i as int), target),
        decreases cmds@.len() - i,
    {
        assert(cmds@.take(i as int + 1).drop_last() =~= cmds@.take(i as int));
        if cmds[i] == target {
            n = n + 1;
        }
        i = i + 1;
    }
    assert(cmds@.take(i as int) =~= cmds@);
    n
}

/// Number of route re-evaluation commands in `cmds`.
pub fn count_reevaluate_all(cmds: &[PwCommand]) -> (n: usize)
    ensures
        n == count_of(cmds@, PwCommand::ReevaluateAll),
{
    count_command(cmds, PwCommand::ReevaluateAll)
}

/// Number of Layer A re-evaluation commands in `cmds`.
pub fn count_reevaluate_layer_a(cmds: &[PwCommand]) -> (n: usize)
    ensures
        n == count_of(cmds@, PwCommand::ReevaluateLayerA),
{
    count_command(cmds, PwCommand::ReevaluateLayerA)
}

/// Holds exactly when `cmds` has `route` route re-evaluations and `layer_a`
/// Layer A re-evaluations, and then does nothing: on other inputs the check
/// fails, so they are left out.
pub fn assert_reevaluate_counts(cmds: &[PwCommand], route: usize, layer_a: usize)
    requires
        count_of(cmds@, PwCommand::ReevaluateAll) == route,
        count_of(cmds@, PwCommand::ReevaluateLayerA) == layer_a,
{
}

} // verus!
