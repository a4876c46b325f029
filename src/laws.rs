use vstd::prelude::*;
use crate::accounts::{
    ApplyToJob, ApproveApplication, ApproveSubmission, ErrorCode, InitializeJobPost, SubmitWork,
    UserRole,
};
use crate::instructions::{
    apply_outcome, approve_application_outcome, approve_submission_outcome, post_job_outcome,
    submit_outcome,
};
use crate::ledger::Marketplace;

verus! {

/// No job ever has two approved applications: every operation keeps the
/// marketplace well formed, and in a well-formed marketplace two approved
/// applications to the same job are the same record.
pub proof fn single_approval_per_job(m: Marketplace, a: int, b: int)
    requires
        m.wf(),
        0 <= a < m.applications@.len(),
        0 <= b < m.applications@.len(),
        m.applications@[a].approved,
        m.applications@[b].approved,
        m.applications@[a].job_post@ == m.applications@[b].job_post@,
    ensures
        a == b,
{
}

/// A job's escrow holds the job's amount until the job is paid, and nothing
/// afterwards.
pub proof fn escrow_holds_amount_until_paid(m: Marketplace, j: int)
    requires
        m.wf(),
        0 <= j < m.jobs@.len(),
    ensures
        !m.jobs@[j].post.is_paid ==> m.jobs@[j].escrow.lamports == m.jobs@[j].post.amount,
        m.jobs@[j].post.is_paid ==> m.jobs@[j].escrow.lamports == 0,
{
    assert(Marketplace::escrow_matches(m.jobs@[j]));
}

/// In a well-formed marketplace the escrow check of a sign-off never fails:
/// each escrow lies where its stored nonce derives it and holds the amount of
/// its unpaid job.
pub proof fn escrow_never_mismatched(
    m: Marketplace,
    ctx: ApproveSubmission,
    client_review: Seq<char>,
)
    requires
        m.wf(),
    ensures
        approve_submission_outcome(m, ctx, client_review) != Err::<(), ErrorCode>(
            ErrorCode::EscrowMismatch,
        ),
{
    if m.has_job(ctx.job_post@) {
        let j = m.job_index(ctx.job_post@);
        assert(m.job_at(j, ctx.job_post@));
        assert(Marketplace::escrow_matches(m.jobs@[j]));
    }
}

/// An application can only be approved once it exists: approving one that
/// was never applied for fails.
pub proof fn approval_needs_application(m: Marketplace, ctx: ApproveApplication)
    requires
        !m.has_application(ctx.job_post@, ctx.applicant@),
    ensures
        approve_application_outcome(m, ctx) is Err,
{
}

/// Work is only accepted on an approved application.
pub proof fn submission_needs_approval(
    m: Marketplace,
    ctx: SubmitWork,
    submission_link: Seq<char>,
    narration: Seq<char>,
)
    ensures
        submit_outcome(m, ctx, submission_link, narration) is Ok ==> m.has_application(ctx.job_post@, ctx.signer@) && m.app_of(
            ctx.job_post@,
            ctx.signer@,
        ).approved,
{
}

/// A sign-off is only accepted on completed work.
pub proof fn payout_needs_completion(
    m: Marketplace,
    ctx: ApproveSubmission,
    client_review: Seq<char>,
)
    ensures
        approve_submission_outcome(m, ctx, client_review) is Ok ==> m.has_application(
            ctx.job_post@,
            ctx.freelancer@,
        ) && m.app_of(ctx.job_post@, ctx.freelancer@).completed,
{
}

/// Only a registered client can post a job.
pub proof fn only_clients_post(
    m: Marketplace,
    ctx: InitializeJobPost,
    title: Seq<char>,
    description: Seq<char>,
    amount: u64,
    start_date: i64,
    end_date: i64,
)
    ensures
        post_job_outcome(m, ctx, title, description, amount, start_date, end_date) is Ok
            ==> m.is_role(ctx.signer@, UserRole::Client),
{
}

/// Only a registered freelancer can apply to a job.
pub proof fn only_freelancers_apply(
    m: Marketplace,
    ctx: ApplyToJob,
    resume_link: Seq<char>,
    expected_end_date: i64,
)
    ensures
        apply_outcome(m, ctx, resume_link, expected_end_date) is Ok ==> m.is_role(
            ctx.signer@,
            UserRole::Freelancer,
        ),
{
}

/// Once a job is paid, its approved freelancer can no longer change the
/// submitted work.
pub proof fn payout_closes_submission(
    m: Marketplace,
    ctx: SubmitWork,
    submission_link: Seq<char>,
    narration: Seq<char>,
)
    requires
        m.has_job(ctx.job_post@),
        m.job_of(ctx.job_post@).post.is_paid,
    ensures
        submit_outcome(m, ctx, submission_link, narration) is Err,
{
}

} // verus!
