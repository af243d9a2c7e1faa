//! Planning of redirections: which files a command opens, in which order,
//! and where its standard input, output and error end up.
//!
//! Redirections apply in source order, so a later redirection of a
//! descriptor overrides an earlier one, and `>&`/`<&` copy the descriptor as
//! it stands at that point. Only descriptors 0, 1 and 2 are supported.

use vstd::prelude::*;

use crate::expander::{ExpRedirV, ExpandedRedirectOperand, ExpandedRedirection, OperandV};
use crate::external::{join, join_path};
use crate::token::RedirectOperator;

verus! {

/// How a redirection target is opened.
#[derive(Debug, Clone, Copy, PartialEq, Eq, Structural)]
pub enum OpenMode {
    /// `<`: read only.
    Read,
    /// `>`: write, creating or truncating the file.
    Truncate,
    /// `>>`: append, creating the file.
    Append,
}

/// A file to open, in the order the redirections give; its path is already
/// taken relative to the shell's current directory.
#[derive(Debug, Clone, PartialEq, Eq)]
pub struct OpenRequest {
    pub path: String,
    pub mode: OpenMode,
}

/// Where one of the standard descriptors of a command comes from.
#[derive(Debug, Clone, Copy, PartialEq, Eq, Structural)]
pub enum SlotSource {
    /// What the descriptor was before the redirections (inherited or a
    /// pipe end) of descriptor `0`, `1` or `2`.
    Original(u8),
    /// The file of the open request with this index.
    Opened(usize),
}

/// Why a redirection cannot be carried out.
#[derive(Debug, Clone, Copy, PartialEq, Eq, Structural)]
pub enum RedirectionError {
    /// The operator is not supported on this descriptor.
    UnsupportedRedirection { redirected_fd: i32, operator: RedirectOperator },
    /// The descriptor to duplicate is not 0, 1 or 2.
    BadFileDescripter { fd: i32 },
    /// The descriptor to replace is not 0, 1 or 2.
    UnsupportedFileDescriptor { fd: i32 },
}

/// The outcome of planning: the files to open in order, the source of each
/// standard descriptor, and the error that stopped planning, if any. Files
/// listed before an error are still opened, as they were reached first.
#[derive(Debug, Clone, PartialEq, Eq)]
pub struct RedirectPlan {
    pub opens: Vec<OpenRequest>,
    pub stdin: SlotSource,
    pub stdout: SlotSource,
    pub stderr: SlotSource,
    pub error: Option<RedirectionError>,
}

/// The value of a plan.
#[verifier::ext_equal]
pub struct PlanV {
    pub opens: Seq<(Seq<char>, OpenMode)>,
    pub slots: Seq<SlotSource>,
    pub error: Option<RedirectionError>,
}

impl View for RedirectPlan {
    type V = PlanV;

    open spec fn view(&self) -> PlanV {
        PlanV {
            opens: self.opens@.map_values(|o: OpenRequest| (o.path@, o.mode)),
            slots: seq![self.stdin, self.stdout, self.stderr],
            error: self.error,
        }
    }
}

/// What a single redirection does.
pub enum ActionV {
    /// Descriptor `dest` becomes a copy of descriptor `src`.
    Duplicate { src: int, dest: int },
    /// Descriptor `fd` becomes the file at `path`, opened with `mode`.
    Open { fd: int, path: Seq<char>, mode: OpenMode },
}

/// The action of one redirection, or why it is refused: `n>&m` and `n<&m`
/// need `m` and then `n` among 0, 1, 2; `<` is for descriptor 0, `>` and
/// `>>` for descriptors 1 and 2. Paths are taken relative to `cwd`.
pub open spec fn redirection_action(cwd: Seq<char>, r: ExpRedirV) -> Result<ActionV, RedirectionError> {
    match (r.op, r.operand) {
        (RedirectOperator::DuplicateInput, OperandV::Fd(src))
        | (RedirectOperator::DuplicateOutput, OperandV::Fd(src)) => if src > 2 {
            Err(RedirectionError::BadFileDescripter { fd: src as i32 })
        } else if r.fd < 0 || r.fd > 2 {
            Err(RedirectionError::UnsupportedFileDescriptor { fd: r.fd })
        } else {
            Ok(ActionV::Duplicate { src: src as int, dest: r.fd as int })
        },
        (RedirectOperator::Input, OperandV::Path(p)) => if r.fd == 0 {
            Ok(ActionV::Open { fd: 0, path: join_path(cwd, p), mode: OpenMode::Read })
        } else {
            Err(RedirectionError::UnsupportedRedirection { redirected_fd: r.fd, operator: r.op })
        },
        (RedirectOperator::OutputTruncate, OperandV::Path(p)) => if r.fd == 1 || r.fd == 2 {
            Ok(ActionV::Open { fd: r.fd as int, path: join_path(cwd, p), mode: OpenMode::Truncate })
        } else {
            Err(RedirectionError::UnsupportedRedirection { redirected_fd: r.fd, operator: r.op })
        },
        (RedirectOperator::OutputAppend, OperandV::Path(p)) => if r.fd == 1 || r.fd == 2 {
            Ok(ActionV::Open { fd: r.fd as int, path: join_path(cwd, p), mode: OpenMode::Append })
        } else {
            Err(RedirectionError::UnsupportedRedirection { redirected_fd: r.fd, operator: r.op })
        },
        _ => Err(RedirectionError::UnsupportedRedirection { redirected_fd: r.fd, operator: r.op }),
    }
}

pub open spec fn initial_plan() -> PlanV {
    PlanV {
        opens: seq![],
        slots: seq![SlotSource::Original(0), SlotSource::Original(1), SlotSource::Original(2)],
        error: None,
    }
}

/// Applies one redirection to a plan that has not failed.
pub open spec fn plan_step(cwd: Seq<char>, p: PlanV, r: ExpRedirV) -> PlanV {
    if p.error is Some {
        p
    } else {
        match redirection_action(cwd, r) {
            Ok(ActionV::Duplicate { src, dest }) => PlanV {
                slots: p.slots.update(dest, p.slots[src]),
                ..p
            },
            Ok(ActionV::Open { fd, path, mode }) => PlanV {
                opens: p.opens.push((path, mode)),
                slots: p.slots.update(fd, SlotSource::Opened(p.opens.len() as usize)),
                ..p
            },
            Err(e) => PlanV { error: Some(e), ..p },
        }
    }
}

/// The plan of a list of redirections, applied in order.
pub open spec fn plan_spec(cwd: Seq<char>, rs: Seq<ExpRedirV>) -> PlanV
    decreases rs.len(),
{
    if rs.len() == 0 {
        initial_plan()
    } else {
        plan_step(cwd, plan_spec(cwd, rs.drop_last()), rs.last())
    }
}

/// The descriptor a successful redirection changes.
pub open spec fn action_target(a: ActionV) -> int {
    match a {
        ActionV::Duplicate { dest, .. } => dest,
        ActionV::Open { fd, .. } => fd,
    }
}

pub proof fn lemma_plan_slots(cwd: Seq<char>, rs: Seq<ExpRedirV>)
    ensures
        plan_spec(cwd, rs).slots.len() == 3,
    decreases rs.len(),
{
    if rs.len() > 0 {
        lemma_plan_slots(cwd, rs.drop_last());
    }
}

/// Law: a redirection that opens a file for a descriptor decides where
/// that descriptor goes unless a later redirection changes it again: in a
/// plan without error, the descriptor is the file this redirection opened,
/// and the file is opened with the mode it gave.
pub proof fn law_last_redirection_decides(cwd: Seq<char>, rs: Seq<ExpRedirV>, k: int)
    requires
        0 <= k < rs.len(),
        plan_spec(cwd, rs).error is None,
        redirection_action(cwd, rs[k]) is Ok,
        redirection_action(cwd, rs[k])->Ok_0 is Open,
        forall|j: int|
            k < j < rs.len() ==> (redirection_action(cwd, #[trigger] rs[j]) is Ok ==> action_target(
                redirection_action(cwd, rs[j])->Ok_0,
            ) != action_target(redirection_action(cwd, rs[k])->Ok_0)),
    ensures
        ({
            let a = redirection_action(cwd, rs[k])->Ok_0;
            let idx = plan_spec(cwd, rs.take(k)).opens.len();
            &&& plan_spec(cwd, rs).slots[action_target(a)] == SlotSource::Opened(idx as usize)
            &&& idx < plan_spec(cwd, rs).opens.len()
            &&& plan_spec(cwd, rs).opens[idx as int] == (a->Open_path, a->Open_mode)
        }),
    decreases rs.len(),
{
    let a = redirection_action(cwd, rs[k])->Ok_0;
    let prefix = plan_spec(cwd, rs.drop_last());
    lemma_plan_slots(cwd, rs.drop_last());
    if prefix.error is Some {
        assert(plan_spec(cwd, rs) == prefix);
    }
    if rs.len() == k + 1 {
        assert(rs.drop_last() == rs.take(k));
    } else {
        assert(rs.drop_last()[k] == rs[k]);
        assert forall|j: int|
            k < j < rs.drop_last().len() implies (redirection_action(cwd, #[trigger] rs.drop_last()[j]) is Ok
            ==> action_target(redirection_action(cwd, rs.drop_last()[j])->Ok_0) != action_target(a)) by {
            assert(rs.drop_last()[j] == rs[j]);
        }
        law_last_redirection_decides(cwd, rs.drop_last(), k);
        assert(rs.drop_last().take(k) == rs.take(k));
        assert(rs.last() == rs[rs.len() - 1]);
    }
}

/// The mode a file redirection opens its file in: `<` reads, `>`
/// truncates, `>>` appends.
pub open spec fn file_mode(op: RedirectOperator) -> OpenMode {
    match op {
        RedirectOperator::Input => OpenMode::Read,
        RedirectOperator::OutputTruncate => OpenMode::Truncate,
        _ => OpenMode::Append,
    }
}

/// Law: a file redirection of a supported descriptor (`<` of 0, `>` or `>>`
/// of 1 or 2), added after redirections that planned without error, opens
/// its path taken relative to the current directory as the next file, in
/// the mode of its operator (so `>>` always appends and `>` always
/// truncates), points its descriptor at that file, and leaves the other
/// descriptors as they were.
pub proof fn law_file_redirections_open_in_their_mode(cwd: Seq<char>, rs: Seq<ExpRedirV>, r: ExpRedirV)
    requires
        plan_spec(cwd, rs).error is None,
        r.operand is Path,
        (r.op == RedirectOperator::Input && r.fd == 0) || ((r.op == RedirectOperator::OutputTruncate
            || r.op == RedirectOperator::OutputAppend) && (r.fd == 1 || r.fd == 2)),
    ensures
        ({
            let before = plan_spec(cwd, rs);
            let after = plan_spec(cwd, rs.push(r));
            &&& after.error is None
            &&& after.opens == before.opens.push((join_path(cwd, r.operand->Path_0), file_mode(r.op)))
            &&& after.slots == before.slots.update(r.fd as int, SlotSource::Opened(before.opens.len() as usize))
        }),
{
    assert(rs.push(r).drop_last() == rs);
}

/// Plans the redirections of a command, in source order.
pub fn plan_redirections(cwd: &str, redirections: &Vec<ExpandedRedirection>) -> (plan: RedirectPlan)
    ensures
        plan@ == plan_spec(cwd@, redirections@.map_values(|r: ExpandedRedirection| r@)),
{
    let ghost rs = redirections@.map_values(|r: ExpandedRedirection| r@);
    let mut plan = RedirectPlan {
        opens: Vec::new(),
        stdin: SlotSource::Original(0),
        stdout: SlotSource::Original(1),
        stderr: SlotSource::Original(2),
        error: None,
    };
    assert(plan@ =~= initial_plan());
    assert(rs.take(0) =~= Seq::<ExpRedirV>::empty());
    let mut i: usize = 0;
    while i < redirections.len()
        invariant
            i <= redirections@.len(),
            rs == redirections@.map_values(|r: ExpandedRedirection| r@),
            plan@ == plan_spec(cwd@, rs.take(i as int)),
        decreases redirections@.len() - i,
    {
        assert(rs.take(i + 1).drop_last() =~= rs.take(i as int));
        assert(rs.take(i + 1).last() == redirections@[i as int]@);
        if plan.error.is_none() {
            apply_redirection(cwd, &mut plan, &redirections[i]);
        }
        i = i + 1;
    }
    assert(rs.take(i as int) =~= rs);
    plan
}

fn get_slot(plan: &RedirectPlan, fd: u32) -> (s: SlotSource)
    requires
        fd <= 2,
    ensures
        s == plan@.slots[fd as int],
{
    if fd == 0 {
        plan.stdin
    } else if fd == 1 {
        plan.stdout
    } else {
        plan.stderr
    }
}

fn set_slot(plan: &mut RedirectPlan, fd: i32, s: SlotSource)
    requires
        0 <= fd <= 2,
    ensures
        final(plan)@ == (PlanV { slots: old(plan)@.slots.update(fd as int, s), ..old(plan)@ }),
{
    if fd == 0 {
        plan.stdin = s;
    } else if fd == 1 {
        plan.stdout = s;
    } else {
        plan.stderr = s;
    }
    assert(plan@.slots =~= old(plan)@.slots.update(fd as int, s));
}

fn push_open(plan: &mut RedirectPlan, fd: i32, path: String, mode: OpenMode)
    requires
        0 <= fd <= 2,
    ensures
        final(plan)@ == (PlanV {
            opens: old(plan)@.opens.push((path@, mode)),
            slots: old(plan)@.slots.update(fd as int, SlotSource::Opened(old(plan)@.opens.len() as usize)),
            ..old(plan)@
        }),
{
    let k = plan.opens.len();
    let ghost before = plan.opens@;
    plan.opens.push(OpenRequest { path, mode });
    assert(plan.opens@.map_values(|o: OpenRequest| (o.path@, o.mode)) =~= before.map_values(
        |o: OpenRequest| (o.path@, o.mode),
    ).push((path@, mode)));
    set_slot(plan, fd, SlotSource::Opened(k));
}

fn apply_redirection(cwd: &str, plan: &mut RedirectPlan, redirection: &ExpandedRedirection)
    requires
        old(plan)@.error is None,
    ensures
        final(plan)@ == plan_step(cwd@, old(plan)@, redirection@),
{
    let fd = redirection.redirected_fd;
    let operator = redirection.operator;
    match (&redirection.operand, operator) {
        (ExpandedRedirectOperand::Fd(src), RedirectOperator::DuplicateInput)
        | (ExpandedRedirectOperand::Fd(src), RedirectOperator::DuplicateOutput) => {
            let src = *src;
            if src > 2 {
                plan.error = Some(RedirectionError::BadFileDescripter { fd: src as i32 });
            } else if fd < 0 || fd > 2 {
                plan.error = Some(RedirectionError::UnsupportedFileDescriptor { fd });
            } else {
                let s = get_slot(plan, src);
                set_slot(plan, fd, s);
            }
        },
        (ExpandedRedirectOperand::Path(path), RedirectOperator::Input) if fd == 0 => {
            push_open(plan, 0, join(cwd, path.as_str()), OpenMode::Read);
        },
        (ExpandedRedirectOperand::Path(path), RedirectOperator::OutputTruncate) if fd == 1 || fd == 2 => {
            push_open(plan, fd, join(cwd, path.as_str()), OpenMode::Truncate);
        },
        (ExpandedRedirectOperand::Path(path), RedirectOperator::OutputAppend) if fd == 1 || fd == 2 => {
            push_open(plan, fd, join(cwd, path.as_str()), OpenMode::Append);
        },
        _ => {
            plan.error = Some(RedirectionError::UnsupportedRedirection { redirected_fd: fd, operator });
        },
    }
}

} // verus!
