//! Workflows and their runs, as the GitHub API reports them.
use vstd::prelude::*;
use vstd::string::*;

use crate::text;

verus! {

/// How many requests are made at a time. GitHub's REST best practices advise against many
/// concurrent requests.
pub const MAX_CONCURRENT_REQUESTS: usize = 4;

/// How the latest completed run of a workflow ended.
#[derive(Clone, Copy, Debug, PartialEq, Eq, Structural)]
pub enum RunStatus {
    Success,
    Failure,
    Other,
}

impl Default for RunStatus {
    fn default() -> (r: Self)
        ensures
            r == RunStatus::Other,
    {
        RunStatus::Other
    }
}

/// Completed runs of a period.
#[derive(Clone, Copy, Debug, PartialEq, Eq, Structural)]
pub struct RunCounts {
    pub passed: u32,
    pub failed: u32,
    pub total: u32,
}

impl Default for RunCounts {
    fn default() -> (r: Self)
        ensures
            r == (RunCounts { passed: 0, failed: 0, total: 0 }),
    {
        RunCounts { passed: 0, failed: 0, total: 0 }
    }
}

/// Completed runs of the periods that are displayed.
#[derive(Clone, Copy, Debug, PartialEq, Eq, Structural)]
pub struct RunMetrics {
    pub last_24_hours: RunCounts,
    pub last_7_days: RunCounts,
    pub last_14_days: RunCounts,
}

impl Default for RunMetrics {
    fn default() -> (r: Self)
        ensures
            r == no_runs(),
    {
        RunMetrics {
            last_24_hours: RunCounts { passed: 0, failed: 0, total: 0 },
            last_7_days: RunCounts { passed: 0, failed: 0, total: 0 },
            last_14_days: RunCounts { passed: 0, failed: 0, total: 0 },
        }
    }
}

/// Metrics of a workflow without completed runs.
pub open spec fn no_runs() -> RunMetrics {
    let none = RunCounts { passed: 0, failed: 0, total: 0 };
    RunMetrics { last_24_hours: none, last_7_days: none, last_14_days: none }
}

/// A workflow with what is known of its runs.
#[derive(Debug, PartialEq, Eq)]
pub struct Workflow {
    pub id: u64,
    pub name: String,
    pub path: String,
    pub state: String,
    pub run_status: RunStatus,
    pub is_in_progress: bool,
    pub run_metrics: RunMetrics,
}

impl Clone for Workflow {
    fn clone(&self) -> (r: Self)
        ensures
            r == *self,
    {
        Workflow {
            id: self.id,
            name: self.name.clone(),
            path: self.path.clone(),
            state: self.state.clone(),
            run_status: self.run_status,
            is_in_progress: self.is_in_progress,
            run_metrics: self.run_metrics,
        }
    }
}

/// What was found out about the failure of a scheduled workflow.
#[derive(Debug, PartialEq, Eq)]
pub struct WorkflowTriage {
    pub workflow_id: u64,
    pub failed_jobs: String,
    pub failed_steps: String,
    pub failed_tests: Vec<String>,
    pub unexpectedly_passed_tests: Vec<String>,
    pub lit_summary: String,
}

/// What a [`WorkflowTriage`] says.
#[verifier::ext_equal]
pub struct TriageModel {
    pub workflow_id: u64,
    pub failed_jobs: Seq<char>,
    pub failed_steps: Seq<char>,
    pub failed_tests: Seq<Seq<char>>,
    pub unexpectedly_passed_tests: Seq<Seq<char>>,
    pub lit_summary: Seq<char>,
}

impl View for WorkflowTriage {
    type V = TriageModel;

    open spec fn view(&self) -> TriageModel {
        TriageModel {
            workflow_id: self.workflow_id,
            failed_jobs: self.failed_jobs@,
            failed_steps: self.failed_steps@,
            failed_tests: text::views(self.failed_tests@),
            unexpectedly_passed_tests: text::views(self.unexpectedly_passed_tests@),
            lit_summary: self.lit_summary@,
        }
    }
}

impl Clone for WorkflowTriage {
    fn clone(&self) -> (r: Self)
        ensures
            r@ == self@,
    {
        WorkflowTriage {
            workflow_id: self.workflow_id,
            failed_jobs: self.failed_jobs.clone(),
            failed_steps: self.failed_steps.clone(),
            failed_tests: text::clone_texts(&self.failed_tests),
            unexpectedly_passed_tests: text::clone_texts(&self.unexpectedly_passed_tests),
            lit_summary: self.lit_summary.clone(),
        }
    }
}

/// The workflows of some pages, in their order, of which only those that are active count.
pub open spec fn active(pages: Seq<Vec<Workflow>>) -> Seq<Workflow>
    decreases pages.len(),
{
    if pages.len() == 0 {
        Seq::empty()
    } else {
        active(pages.drop_last()) + pages.last()@.filter(
            |workflow: Workflow| workflow.state@ == "active"@,
        )
    }
}

/// The workflows that the pages of a list of workflows name as active.
pub fn active_workflows(pages: &Vec<Vec<Workflow>>) -> (r: Vec<Workflow>)
    ensures
        r@ == active(pages@),
{
    let mut r: Vec<Workflow> = Vec::new();
    let mut i: usize = 0;
    assert(r@ =~= active(pages@.take(0)));
    while i < pages.len()
        invariant
            i <= pages@.len(),
            r@ == active(pages@.take(i as int)),
        decreases pages@.len() - i,
    {
        let ghost before = r@;
        let ghost is_active = |workflow: Workflow| workflow.state@ == "active"@;
        let page = &pages[i];
        let mut j: usize = 0;
        assert(r@ =~= before + page@.take(0).filter(is_active)) by {
            reveal(Seq::filter);
        }
        while j < page.len()
            invariant
                j <= page@.len(),
                is_active == (|workflow: Workflow| workflow.state@ == "active"@),
                r@ == before + page@.take(j as int).filter(is_active),
            decreases page@.len() - j,
        {
            proof {
                reveal(Seq::filter);
                assert(page@.take(j + 1).drop_last() =~= page@.take(j as int));
            }
            if text::same(page[j].state.as_str(), "active") {
                r.push(page[j].clone());
                assert(r@ =~= before + page@.take(j + 1).filter(is_active));
            }
            j = j + 1;
        }
        assert(page@.take(j as int) =~= page@);
        assert(pages@.take(i + 1).drop_last() =~= pages@.take(i as int));
        assert(pages@.take(i + 1).last() == page);
        i = i + 1;
    }
    assert(pages@.take(i as int) =~= pages@);
    r
}

} // verus!
