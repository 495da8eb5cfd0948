//! Grouping a decoded command sequence into print jobs.
//!
//! A `Cut` command terminates the job it belongs to; commands after the
//! last cut form a trailing job even without a closing cut, and an empty
//! command sequence yields no jobs at all.

use vstd::prelude::*;

use crate::command::{CmdModel, Command};

verus! {

/// One logical receipt: the commands between two cut boundaries.
pub struct Job {
    pub commands: Vec<Command>,
}

impl Job {
    pub open spec fn view_cmds(&self) -> Seq<CmdModel> {
        self.commands@.map_values(|c: Command| c@)
    }
}

/// Segmentation with the commands of the current, still-open job carried
/// in `cur`: a cut closes `cur` (the cut belongs to the job it ends), and
/// a non-empty `cur` at the end of the stream is emitted as a final job.
pub open spec fn segment_rec(cmds: Seq<CmdModel>, cur: Seq<CmdModel>) -> Seq<Seq<CmdModel>>
    decreases cmds.len(),
{
    if cmds.len() == 0 {
        if cur.len() == 0 {
            Seq::empty()
        } else {
            seq![cur]
        }
    } else if cmds[0] is Cut {
        seq![cur.push(cmds[0])] + segment_rec(cmds.subrange(1, cmds.len() as int), Seq::empty())
    } else {
        segment_rec(cmds.subrange(1, cmds.len() as int), cur.push(cmds[0]))
    }
}

/// The jobs a command sequence segments into.
pub open spec fn segment_spec(cmds: Seq<CmdModel>) -> Seq<Seq<CmdModel>> {
    segment_rec(cmds, Seq::empty())
}

/// How many `Cut` commands a sequence holds.
pub open spec fn cut_count(cmds: Seq<CmdModel>) -> int
    decreases cmds.len(),
{
    if cmds.len() == 0 {
        0
    } else {
        (if cmds[0] is Cut {
            1int
        } else {
            0int
        }) + cut_count(cmds.subrange(1, cmds.len() as int))
    }
}

/// Whether commands follow the last cut (or no cut exists and the
/// sequence is non-empty): the trailing remainder is non-empty.
pub open spec fn has_trailing(cmds: Seq<CmdModel>) -> bool {
    cmds.len() > 0 && !(cmds.last() is Cut)
}

proof fn lemma_segment_rec_count(cmds: Seq<CmdModel>, cur: Seq<CmdModel>)
    ensures
        segment_rec(cmds, cur).len() == cut_count(cmds) + if has_trailing(cmds) || (cmds.len()
            == 0 && cur.len() > 0) {
            1int
        } else {
            0int
        },
    decreases cmds.len(),
{
    if cmds.len() == 0 {
    } else {
        let rest = cmds.subrange(1, cmds.len() as int);
        if cmds.len() > 1 {
            assert(rest.last() == cmds.last());
        }
        if cmds[0] is Cut {
            lemma_segment_rec_count(rest, Seq::empty());
        } else {
            lemma_segment_rec_count(rest, cur.push(cmds[0]));
        }
    }
}

/// How many jobs a stream of commands yields: one per `Cut`, plus one for
/// a non-empty trailing remainder; an empty sequence yields no jobs.
pub proof fn lemma_segment_count(cmds: Seq<CmdModel>)
    ensures
        segment_spec(cmds).len() == cut_count(cmds) + if has_trailing(cmds) {
            1int
        } else {
            0int
        },
        cmds.len() == 0 ==> segment_spec(cmds).len() == 0,
{
    lemma_segment_rec_count(cmds, Seq::empty());
}

/// Every job a segmentation yields is non-empty.
pub proof fn lemma_segment_jobs_nonempty(cmds: Seq<CmdModel>, cur: Seq<CmdModel>, i: int)
    requires
        0 <= i < segment_rec(cmds, cur).len(),
        cmds.len() > 0 || cur.len() > 0,
    ensures
        segment_rec(cmds, cur)[i].len() > 0,
    decreases cmds.len(),
{
    if cmds.len() == 0 {
    } else {
        let rest = cmds.subrange(1, cmds.len() as int);
        if cmds[0] is Cut {
            if i > 0 {
                if rest.len() > 0 {
                    lemma_segment_jobs_nonempty(rest, Seq::empty(), i - 1);
                }
            }
        } else {
            lemma_segment_jobs_nonempty(rest, cur.push(cmds[0]), i);
        }
    }
}

/// Splits a command sequence into jobs at cut boundaries.
///
/// The result is exactly `segment_spec` of the input: each `Cut` closes
/// the job it belongs to, a non-empty trailing remainder becomes a final
/// job, and an empty input yields zero jobs.
pub fn segment(cmds: Vec<Command>) -> (jobs: Vec<Job>)
    ensures
        jobs@.map_values(|j: Job| j.view_cmds()) == segment_spec(
            cmds@.map_values(|c: Command| c@),
        ),
{
    let ghost full = cmds@.map_values(|c: Command| c@);
    let mut jobs: Vec<Job> = Vec::new();
    let mut cur: Vec<Command> = Vec::new();
    let n = cmds.len();
    let mut i: usize = 0;
    proof {
        assert(full.subrange(0, n as int) =~= full);
        assert(Seq::<Seq<CmdModel>>::empty() + segment_rec(full, Seq::<CmdModel>::empty())
            =~= segment_rec(full, Seq::<CmdModel>::empty()));
        assert(jobs@.map_values(|j: Job| j.view_cmds()) =~= Seq::<Seq<CmdModel>>::empty());
        assert(cur@.map_values(|c: Command| c@) =~= Seq::<CmdModel>::empty());
    }
    let mut cmds = cmds;
    // Commands are moved out of the input one by one, from the front.
    while i < n
        invariant
            i <= n,
            full.len() == n,
            cmds@.len() == n - i,
            cmds@.map_values(|c: Command| c@) =~= full.subrange(i as int, n as int),
            segment_spec(full) == jobs@.map_values(|j: Job| j.view_cmds()) + segment_rec(
                full.subrange(i as int, n as int),
                cur@.map_values(|c: Command| c@),
            ),
        decreases n - i,
    {
        let ghost rest = full.subrange(i as int, n as int);
        let ghost pre_jobs = jobs@;
        let ghost pre_cur = cur@.map_values(|c: Command| c@);
        let ghost pre_cmds = cmds@;
        let c = cmds.remove(0);
        proof {
            assert(pre_cmds.map_values(|cc: Command| cc@) =~= rest);
            assert(c@ == rest[0]);
            assert(cmds@ =~= pre_cmds.subrange(1, pre_cmds.len() as int));
            assert(cmds@.map_values(|cc: Command| cc@) =~= pre_cmds.map_values(
                |cc: Command| cc@,
            ).subrange(1, pre_cmds.len() as int));
            assert(cmds@.map_values(|cc: Command| cc@) =~= rest.subrange(1, rest.len() as int));
            assert(cmds@.map_values(|cc: Command| cc@) =~= full.subrange(i + 1, n as int));
            assert(rest.subrange(1, rest.len() as int) =~= full.subrange(i + 1, n as int));
        }
        let is_cut = match c {
            Command::Cut { .. } => true,
            _ => false,
        };
        cur.push(c);
        proof {
            assert(cur@.map_values(|cc: Command| cc@) =~= pre_cur.push(rest[0]));
        }
        if is_cut {
            let done = Job { commands: cur };
            cur = Vec::new();
            jobs.push(done);
            proof {
                assert(jobs@.map_values(|j: Job| j.view_cmds()) =~= pre_jobs.map_values(
                    |j: Job| j.view_cmds(),
                ).push(pre_cur.push(rest[0])));
                assert(cur@.map_values(|cc: Command| cc@) =~= Seq::<CmdModel>::empty());
                assert(segment_rec(rest, pre_cur) == seq![pre_cur.push(rest[0])] + segment_rec(
                    full.subrange(i + 1, n as int),
                    Seq::empty(),
                ));
                assert(pre_jobs.map_values(|j: Job| j.view_cmds()) + (seq![pre_cur.push(rest[0])]
                    + segment_rec(full.subrange(i + 1, n as int), Seq::empty()))
                    =~= pre_jobs.map_values(|j: Job| j.view_cmds()).push(pre_cur.push(rest[0]))
                    + segment_rec(full.subrange(i + 1, n as int), Seq::empty()));
            }
        } else {
            proof {
                assert(segment_rec(rest, pre_cur) == segment_rec(
                    full.subrange(i + 1, n as int),
                    pre_cur.push(rest[0]),
                ));
            }
        }
        i = i + 1;
    }
    if cur.len() > 0 {
        let ghost pre_jobs = jobs@;
        let ghost pre_cur = cur@.map_values(|c: Command| c@);
        jobs.push(Job { commands: cur });
        proof {
            assert(full.subrange(n as int, n as int) =~= Seq::<CmdModel>::empty());
            assert(segment_rec(Seq::<CmdModel>::empty(), pre_cur) == seq![pre_cur]);
            assert(jobs@.map_values(|j: Job| j.view_cmds()) =~= pre_jobs.map_values(
                |j: Job| j.view_cmds(),
            ) + seq![pre_cur]);
        }
    } else {
        proof {
            assert(full.subrange(n as int, n as int) =~= Seq::<CmdModel>::empty());
            assert(cur@.map_values(|c: Command| c@) =~= Seq::<CmdModel>::empty());
            assert(segment_rec(Seq::<CmdModel>::empty(), Seq::<CmdModel>::empty())
                == Seq::<Seq<CmdModel>>::empty());
            assert(jobs@.map_values(|j: Job| j.view_cmds()) + Seq::<Seq<CmdModel>>::empty()
                =~= jobs@.map_values(|j: Job| j.view_cmds()));
        }
    }
    jobs
}

} // verus!
