use vstd::prelude::*;
use crate::accounts::{
    fits, same_key, Application, ApplyToJob, ApproveApplication, ApproveSubmission, ErrorCode, EscrowAccount,
    InitializeJobPost, JobAccount, JobPost, RegisterUser, SubmitWork, UserAccount, UserRole,
    MAX_DESCRIPTION_LEN, MAX_LINK_LEN, MAX_NAME_LEN, MAX_TEXT_LEN, MAX_TITLE_LEN,
};
use crate::derivation::{escrow_address, escrow_address_for, escrow_found_for, find_escrow};
use crate::ledger::{lemma_balances_frame, lemma_wf_frame, lemma_wf_same_approvals, Marketplace};

verus! {

/// Which outcome `register_user` owes, on the marketplace as it was before
/// the call.
pub open spec fn register_outcome(m: Marketplace, ctx: RegisterUser, name: Seq<char>) -> Result<
    (),
    ErrorCode,
> {
    if m.has_user(ctx.signer@) {
        Err(ErrorCode::AlreadyExists)
    } else if name.len() > MAX_NAME_LEN {
        Err(ErrorCode::TextTooLong)
    } else {
        Ok(())
    }
}

/// Registers the caller under a role, once per identity.
pub fn register_user(m: &mut Marketplace, ctx: &RegisterUser, name: String, role: UserRole) -> (r:
    Result<(), ErrorCode>)
    requires
        old(m).wf(),
    ensures
        final(m).wf(),
        r == register_outcome(*old(m), *ctx, name@),
        r is Err ==> *final(m) == *old(m),
        r is Ok ==> final(m).users@ == old(m).users@.push(
            (UserAccount { wallet: ctx.signer, name: name, role: role }),
        ) && final(m).jobs == old(m).jobs && final(m).applications == old(m).applications
            && final(m).wallets == old(m).wallets,
{
    if m.find_user(&ctx.signer).is_some() {
        return Err(ErrorCode::AlreadyExists);
    }
    if !fits(&name, MAX_NAME_LEN) {
        return Err(ErrorCode::TextTooLong);
    }
    let ghost before = *m;
    m.users.push(UserAccount { wallet: ctx.signer, name, role });
    proof {
        assert forall|c: int| 0 <= c < before.users@.len() implies #[trigger] m.users@[c].wallet@
            != ctx.signer@ by {
            assert(!before.user_at(c, ctx.signer@));
        }
        lemma_wf_frame(before, *m);
    }
    Ok(())
}

/// Which outcome `initialize_job_post` owes: the checks in the order they are
/// made, on the marketplace as it was before the call.
pub open spec fn post_job_outcome(
    m: Marketplace,
    ctx: InitializeJobPost,
    title: Seq<char>,
    description: Seq<char>,
    amount: u64,
    start_date: i64,
    end_date: i64,
) -> Result<(), ErrorCode> {
    if m.has_job(ctx.job_post@) || m.has_title(ctx.signer@, title) {
        Err(ErrorCode::AlreadyExists)
    } else if !m.is_role(ctx.signer@, UserRole::Client) {
        Err(ErrorCode::Unauthorized)
    } else if start_date > end_date || start_date < ctx.now {
        Err(ErrorCode::InvalidDates)
    } else if m.balance_of(ctx.signer@) < amount {
        Err(ErrorCode::InsufficientFunds)
    } else if escrow_found_for(ctx.job_post@).is_none() {
        Err(ErrorCode::EscrowMismatch)
    } else if title.len() > MAX_TITLE_LEN || description.len() > MAX_DESCRIPTION_LEN {
        Err(ErrorCode::TextTooLong)
    } else {
        Ok(())
    }
}

/// The record that `initialize_job_post` stores: an open job whose escrow
/// lies at the address derived from the job's key and holds its amount.
pub open spec fn is_new_job(
    job: JobAccount,
    ctx: InitializeJobPost,
    title: Seq<char>,
    description: Seq<char>,
    amount: u64,
    start_date: i64,
    end_date: i64,
) -> bool {
    &&& job.key@ == ctx.job_post@
    &&& job.post.client@ == ctx.signer@
    &&& job.post.title@ == title
    &&& job.post.description@ == description
    &&& job.post.amount == amount
    &&& !job.post.is_filled
    &&& !job.post.is_paid
    &&& job.post.start_date == start_date
    &&& job.post.end_date == end_date
    &&& escrow_found_for(ctx.job_post@) == Some((job.escrow.address@, job.post.escrow_bump))
    &&& job.escrow.lamports == amount
}

/// Posts a job for the calling client and moves `amount` from the client's
/// balance into the job's escrow, all or nothing.
pub fn initialize_job_post(
    m: &mut Marketplace,
    ctx: &InitializeJobPost,
    title: String,
    description: String,
    amount: u64,
    start_date: i64,
    end_date: i64,
) -> (r: Result<(), ErrorCode>)
    requires
        old(m).wf(),
    ensures
        final(m).wf(),
        r == post_job_outcome(*old(m), *ctx, title@, description@, amount, start_date, end_date),
        r is Err ==> *final(m) == *old(m),
        r is Ok ==> {
            &&& final(m).jobs@ == old(m).jobs@.push(final(m).jobs@.last())
            &&& is_new_job(
                final(m).jobs@.last(),
                *ctx,
                title@,
                description@,
                amount,
                start_date,
                end_date,
            )
            &&& final(m).balance_of(ctx.signer@) == old(m).balance_of(ctx.signer@) - amount
            &&& forall|k: Seq<u8>|
                k != ctx.signer@ ==> final(m).balance_of(k) == old(m).balance_of(k)
            &&& final(m).users == old(m).users
            &&& final(m).applications == old(m).applications
        },
{
    if m.find_job(&ctx.job_post).is_some() || m.find_title(&ctx.signer, &title) {
        return Err(ErrorCode::AlreadyExists);
    }
    match m.find_user(&ctx.signer) {
        None => {
            return Err(ErrorCode::Unauthorized);
        },
        Some(i) => {
            proof {
                m.lemma_user(i as int, ctx.signer@);
            }
            match m.users[i].role {
                UserRole::Client => {},
                UserRole::Freelancer => {
                    return Err(ErrorCode::Unauthorized);
                },
            }
        },
    }
    if start_date > end_date || start_date < ctx.now {
        return Err(ErrorCode::InvalidDates);
    }
    let balance: u64 = match m.find_wallet(&ctx.signer) {
        Some(w) => {
            proof {
                m.lemma_wallet(w as int, ctx.signer@);
            }
            m.wallets[w].lamports
        },
        None => 0,
    };
    if balance < amount {
        return Err(ErrorCode::InsufficientFunds);
    }
    let (address, bump) = match find_escrow(&ctx.job_post) {
        Some(found) => found,
        None => {
            return Err(ErrorCode::EscrowMismatch);
        },
    };
    if !fits(&title, MAX_TITLE_LEN) || !fits(&description, MAX_DESCRIPTION_LEN) {
        return Err(ErrorCode::TextTooLong);
    }
    m.withdraw(&ctx.signer, amount);
    let ghost before = *m;
    let job = JobAccount {
        key: ctx.job_post,
        post: JobPost {
            client: ctx.signer,
            title,
            amount,
            description,
            is_filled: false,
            is_paid: false,
            escrow_bump: bump,
            start_date,
            end_date,
        },
        escrow: EscrowAccount { address, lamports: amount },
    };
    m.jobs.push(job);
    proof {
        assert(before.jobs == old(m).jobs);
        assert forall|j: int| !before.job_at(j, ctx.job_post@) by {
            assert(!old(m).job_at(j, ctx.job_post@));
        }
        assert(m.jobs@.last().key@ == ctx.job_post@);
        lemma_wf_push_job(before, *m);
        lemma_balances_frame(before, *m);
    }
    Ok(())
}

/// The invariant survives storing one open, unpaid job under a fresh key
/// whose escrow holds its amount.
proof fn lemma_wf_push_job(before: Marketplace, after: Marketplace)
    requires
        before.wf(),
        after.users == before.users,
        after.wallets == before.wallets,
        after.applications == before.applications,
        after.jobs@ == before.jobs@.push(after.jobs@.last()),
        !before.has_job(after.jobs@.last().key@),
        !after.jobs@.last().post.is_filled,
        Marketplace::escrow_matches(after.jobs@.last()),
    ensures
        after.wf(),
{
    let n = before.jobs@.len() as int;
    assert forall|i: int, j: int|
        0 <= i < after.jobs@.len() && 0 <= j < after.jobs@.len()
            && #[trigger] after.jobs@[i].key@ == #[trigger] after.jobs@[j].key@ implies i == j by {
        if i < n && j == n {
            assert(before.job_at(i, after.jobs@[n].key@));
        } else if j < n && i == n {
            assert(before.job_at(j, after.jobs@[n].key@));
        } else if i < n && j < n {
            assert(before.jobs@[i] == after.jobs@[i]);
            assert(before.jobs@[j] == after.jobs@[j]);
        }
    }
    assert forall|j: int| 0 <= j < after.jobs@.len() implies Marketplace::escrow_matches(
        #[trigger] after.jobs@[j],
    ) by {
        if j < n {
            assert(after.jobs@[j] == before.jobs@[j]);
        }
    }
    assert forall|a: int| 0 <= a < after.applications@.len()
        && #[trigger] after.applications@[a].approved implies after.job_filled(
        after.applications@[a].job_post@,
    ) by {
        assert(before.job_filled(before.applications@[a].job_post@));
        let j = choose|j: int|
            before.job_at(j, before.applications@[a].job_post@) && before.jobs@[j].post.is_filled;
        assert(after.jobs@[j] == before.jobs@[j]);
        assert(after.job_at(j, after.applications@[a].job_post@));
    }
}

/// Which outcome `approve_submission` owes, on the marketplace as it was
/// before the call.
pub open spec fn approve_submission_outcome(
    m: Marketplace,
    ctx: ApproveSubmission,
    client_review: Seq<char>,
) -> Result<
    (),
    ErrorCode,
> {
    let job = m.job_of(ctx.job_post@);
    if !m.has_job(ctx.job_post@) {
        Err(ErrorCode::NotFound)
    } else if job.post.client@ != ctx.signer@ || !m.is_role(ctx.signer@, UserRole::Client) {
        Err(ErrorCode::Unauthorized)
    } else if !m.has_application(ctx.job_post@, ctx.freelancer@) {
        Err(ErrorCode::NotFound)
    } else if !m.app_of(ctx.job_post@, ctx.freelancer@).completed || job.post.is_paid {
        Err(ErrorCode::WorkNotCompleted)
    } else if escrow_address_for(job.key@, job.post.escrow_bump) != Some(job.escrow.address@)
        || job.escrow.lamports != job.post.amount {
        Err(ErrorCode::EscrowMismatch)
    } else if m.balance_of(ctx.freelancer@) + job.post.amount > u64::MAX {
        Err(ErrorCode::BalanceOverflow)
    } else if client_review.len() > MAX_TEXT_LEN {
        Err(ErrorCode::TextTooLong)
    } else {
        Ok(())
    }
}

/// A job once its escrow has paid out.
pub open spec fn paid_job(job: JobAccount) -> JobAccount {
    JobAccount {
        post: JobPost { is_paid: true, ..job.post },
        escrow: EscrowAccount { lamports: 0, ..job.escrow },
        ..job
    }
}

/// The client signs off submitted work: the review is recorded and the whole
/// escrow goes to the freelancer. Payment happens once: a paid job refuses a
/// second sign-off.
pub fn approve_submission(m: &mut Marketplace, ctx: &ApproveSubmission, client_review: String) -> (r:
    Result<(), ErrorCode>)
    requires
        old(m).wf(),
    ensures
        final(m).wf(),
        r == approve_submission_outcome(*old(m), *ctx, client_review@),
        r is Err ==> *final(m) == *old(m),
        r is Ok ==> {
            let j = old(m).job_index(ctx.job_post@);
            let a = old(m).app_index(ctx.job_post@, ctx.freelancer@);
            let amount = old(m).jobs@[j].post.amount;
            &&& final(m).jobs@ == old(m).jobs@.update(j, paid_job(old(m).jobs@[j]))
            &&& final(m).applications@ == old(m).applications@.update(
                a,
                (Application { client_review: client_review, ..old(m).applications@[a] }),
            )
            &&& final(m).balance_of(ctx.freelancer@) == old(m).balance_of(ctx.freelancer@)
                + amount
            &&& forall|k: Seq<u8>|
                k != ctx.freelancer@ ==> final(m).balance_of(k) == old(m).balance_of(k)
            &&& final(m).users == old(m).users
        },
{
    let j = match m.find_job(&ctx.job_post) {
        Some(j) => j,
        None => {
            return Err(ErrorCode::NotFound);
        },
    };
    proof {
        m.lemma_job(j as int, ctx.job_post@);
    }
    if !same_key(&m.jobs[j].post.client, &ctx.signer) {
        return Err(ErrorCode::Unauthorized);
    }
    match m.find_user(&ctx.signer) {
        None => {
            return Err(ErrorCode::Unauthorized);
        },
        Some(i) => {
            proof {
                m.lemma_user(i as int, ctx.signer@);
            }
            match m.users[i].role {
                UserRole::Client => {},
                UserRole::Freelancer => {
                    return Err(ErrorCode::Unauthorized);
                },
            }
        },
    }
    let a = match m.find_application(&ctx.job_post, &ctx.freelancer) {
        Some(a) => a,
        None => {
            return Err(ErrorCode::NotFound);
        },
    };
    proof {
        m.lemma_app(a as int, ctx.job_post@, ctx.freelancer@);
    }
    if !m.applications[a].completed || m.jobs[j].post.is_paid {
        return Err(ErrorCode::WorkNotCompleted);
    }
    let amount = m.jobs[j].post.amount;
    let authorized = match escrow_address(&m.jobs[j].key, m.jobs[j].post.escrow_bump) {
        Some(address) => same_key(&address, &m.jobs[j].escrow.address),
        None => false,
    };
    if !authorized || m.jobs[j].escrow.lamports != amount {
        return Err(ErrorCode::EscrowMismatch);
    }
    let balance: u64 = match m.find_wallet(&ctx.freelancer) {
        Some(w) => {
            proof {
                m.lemma_wallet(w as int, ctx.freelancer@);
            }
            m.wallets[w].lamports
        },
        None => 0,
    };
    if balance > u64::MAX - amount {
        return Err(ErrorCode::BalanceOverflow);
    }
    if !fits(&client_review, MAX_TEXT_LEN) {
        return Err(ErrorCode::TextTooLong);
    }
    proof {
        let job_key = m.applications@[a as int].job_post@;
        assert(m.job_filled(job_key));
        let c = choose|c: int| m.job_at(c, job_key) && m.jobs@[c].post.is_filled;
        m.lemma_job(c, job_key);
    }
    m.applications[a].client_review = client_review;
    m.jobs[j].escrow.lamports = 0;
    m.jobs[j].post.is_paid = true;
    proof {
        lemma_wf_same_approvals(*old(m), *m);
        lemma_balances_frame(*old(m), *m);
    }
    let credited = m.deposit(&ctx.freelancer, amount);
    proof {
        assert(credited is Ok);
    }
    Ok(())
}

/// Which outcome `approve_application` owes, on the marketplace as it was
/// before the call. A filled job refuses every approval, whichever
/// application it names.
pub open spec fn approve_application_outcome(m: Marketplace, ctx: ApproveApplication) -> Result<
    (),
    ErrorCode,
> {
    let job = m.job_of(ctx.job_post@);
    if !m.has_job(ctx.job_post@) {
        Err(ErrorCode::NotFound)
    } else if job.post.client@ != ctx.signer@ || !m.is_role(ctx.signer@, UserRole::Client) {
        Err(ErrorCode::Unauthorized)
    } else if job.post.is_filled {
        Err(ErrorCode::JobAlreadyFilled)
    } else if !m.has_application(ctx.job_post@, ctx.applicant@) {
        Err(ErrorCode::NotFound)
    } else {
        Ok(())
    }
}

/// The job's client approves one application, which fills the job in the
/// same step.
pub fn approve_application(m: &mut Marketplace, ctx: &ApproveApplication) -> (r: Result<
    (),
    ErrorCode,
>)
    requires
        old(m).wf(),
    ensures
        final(m).wf(),
        r == approve_application_outcome(*old(m), *ctx),
        r is Err ==> *final(m) == *old(m),
        r is Ok ==> {
            let j = old(m).job_index(ctx.job_post@);
            let a = old(m).app_index(ctx.job_post@, ctx.applicant@);
            &&& final(m).jobs@ == old(m).jobs@.update(
                j,
                (JobAccount {
                    post: JobPost { is_filled: true, ..old(m).jobs@[j].post },
                    ..old(m).jobs@[j]
                }),
            )
            &&& final(m).applications@ == old(m).applications@.update(
                a,
                (Application { approved: true, ..old(m).applications@[a] }),
            )
            &&& final(m).users == old(m).users
            &&& final(m).wallets == old(m).wallets
        },
{
    let j = match m.find_job(&ctx.job_post) {
        Some(j) => j,
        None => {
            return Err(ErrorCode::NotFound);
        },
    };
    proof {
        m.lemma_job(j as int, ctx.job_post@);
    }
    if !same_key(&m.jobs[j].post.client, &ctx.signer) {
        return Err(ErrorCode::Unauthorized);
    }
    match m.find_user(&ctx.signer) {
        None => {
            return Err(ErrorCode::Unauthorized);
        },
        Some(i) => {
            proof {
                m.lemma_user(i as int, ctx.signer@);
            }
            match m.users[i].role {
                UserRole::Client => {},
                UserRole::Freelancer => {
                    return Err(ErrorCode::Unauthorized);
                },
            }
        },
    }
    if m.jobs[j].post.is_filled {
        return Err(ErrorCode::JobAlreadyFilled);
    }
    let a = match m.find_application(&ctx.job_post, &ctx.applicant) {
        Some(a) => a,
        None => {
            return Err(ErrorCode::NotFound);
        },
    };
    proof {
        m.lemma_app(a as int, ctx.job_post@, ctx.applicant@);
    }
    m.jobs[j].post.is_filled = true;
    m.applications[a].approved = true;
    proof {
        lemma_wf_approve(*old(m), *m, j as int, a as int);
    }
    Ok(())
}

/// The invariant survives filling an open job and approving one application
/// to it: before, no application to an open job is approved, so afterwards
/// the one just approved is the job's only approved application.
proof fn lemma_wf_approve(before: Marketplace, after: Marketplace, j: int, a: int)
    requires
        before.wf(),
        0 <= j < before.jobs@.len(),
        0 <= a < before.applications@.len(),
        before.applications@[a].job_post@ == before.jobs@[j].key@,
        !before.jobs@[j].post.is_filled,
        after.users == before.users,
        after.wallets == before.wallets,
        after.jobs@ == before.jobs@.update(
            j,
            (JobAccount {
                post: JobPost { is_filled: true, ..before.jobs@[j].post },
                ..before.jobs@[j]
            }),
        ),
        after.applications@ == before.applications@.update(
            a,
            (Application { approved: true, ..before.applications@[a] }),
        ),
    ensures
        after.wf(),
{
    let key = before.jobs@[j].key@;
    assert forall|b: int| 0 <= b < before.applications@.len()
        && before.applications@[b].job_post@ == key implies !#[trigger] before.applications@[b].approved by {
        if before.applications@[b].approved {
            assert(before.job_filled(key));
            let c = choose|c: int| before.job_at(c, key) && before.jobs@[c].post.is_filled;
            assert(before.jobs@[c].key@ == before.jobs@[j].key@);
        }
    }
    assert forall|x: int, y: int|
        0 <= x < after.jobs@.len() && 0 <= y < after.jobs@.len()
            && #[trigger] after.jobs@[x].key@ == #[trigger] after.jobs@[y].key@ implies x == y by {
        assert(before.jobs@[x].key@ == before.jobs@[y].key@);
    }
    assert forall|x: int, y: int|
        0 <= x < after.applications@.len() && 0 <= y < after.applications@.len()
            && #[trigger] after.applications@[x].job_post@ == #[trigger] after.applications@[y].job_post@
            && after.applications@[x].applicant@ == after.applications@[y].applicant@ implies x
        == y by {
        assert(before.applications@[x].job_post@ == before.applications@[y].job_post@);
        assert(before.applications@[x].applicant@ == before.applications@[y].applicant@);
    }
    assert forall|x: int| 0 <= x < after.jobs@.len() implies Marketplace::escrow_matches(
        #[trigger] after.jobs@[x],
    ) by {
        assert(Marketplace::escrow_matches(before.jobs@[x]));
    }
    assert forall|x: int| 0 <= x < after.applications@.len()
        && #[trigger] after.applications@[x].approved implies after.job_filled(
        after.applications@[x].job_post@,
    ) by {
        if x == a {
            assert(after.job_at(j, key));
        } else {
            assert(before.applications@[x].approved);
            let k = before.applications@[x].job_post@;
            assert(before.job_filled(k));
            let c = choose|c: int| before.job_at(c, k) && before.jobs@[c].post.is_filled;
            assert(after.job_at(c, k) && after.jobs@[c].post.is_filled);
        }
    }
    assert forall|x: int, y: int|
        0 <= x < after.applications@.len() && 0 <= y < after.applications@.len()
            && #[trigger] after.applications@[x].approved && #[trigger] after.applications@[y].approved
            && after.applications@[x].job_post@ == after.applications@[y].job_post@ implies x
        == y by {
        if x != a && y != a {
            assert(before.applications@[x].approved && before.applications@[y].approved);
        } else if x == a && y != a {
            assert(before.applications@[y].approved);
        } else if y == a && x != a {
            assert(before.applications@[x].approved);
        }
    }
    assert forall|x: int| 0 <= x < after.applications@.len()
        && #[trigger] after.applications@[x].completed implies after.applications@[x].approved by {
        if x != a {
            assert(before.applications@[x].completed);
        }
    }
}

/// Which outcome `apply_to_job` owes, on the marketplace as it was before
/// the call.
pub open spec fn apply_outcome(
    m: Marketplace,
    ctx: ApplyToJob,
    resume_link: Seq<char>,
    expected_end_date: i64,
) -> Result<(), ErrorCode> {
    if m.has_application(ctx.job_post@, ctx.signer@) {
        Err(ErrorCode::AlreadyExists)
    } else if !m.is_role(ctx.signer@, UserRole::Freelancer) {
        Err(ErrorCode::Unauthorized)
    } else if expected_end_date < 0 {
        Err(ErrorCode::InvalidDates)
    } else if !m.has_job(ctx.job_post@) {
        Err(ErrorCode::NotFound)
    } else if resume_link.len() > MAX_LINK_LEN {
        Err(ErrorCode::TextTooLong)
    } else {
        Ok(())
    }
}

/// The record that `apply_to_job` stores: nothing approved, completed,
/// submitted or reviewed yet.
pub open spec fn is_new_application(
    app: Application,
    ctx: ApplyToJob,
    resume_link: Seq<char>,
    expected_end_date: i64,
) -> bool {
    &&& app.applicant@ == ctx.signer@
    &&& app.job_post@ == ctx.job_post@
    &&& app.resume_link@ == resume_link
    &&& !app.approved
    &&& !app.completed
    &&& app.submission_link@.len() == 0
    &&& app.narration@.len() == 0
    &&& app.client_review@.len() == 0
    &&& app.expected_end_date == expected_end_date
}

/// The calling freelancer applies to a job, once per job.
pub fn apply_to_job(
    m: &mut Marketplace,
    ctx: &ApplyToJob,
    resume_link: String,
    expected_end_date: i64,
) -> (r: Result<(), ErrorCode>)
    requires
        old(m).wf(),
    ensures
        final(m).wf(),
        r == apply_outcome(*old(m), *ctx, resume_link@, expected_end_date),
        r is Err ==> *final(m) == *old(m),
        r is Ok ==> {
            &&& final(m).applications@ == old(m).applications@.push(
                final(m).applications@.last(),
            )
            &&& is_new_application(
                final(m).applications@.last(),
                *ctx,
                resume_link@,
                expected_end_date,
            )
            &&& final(m).users == old(m).users
            &&& final(m).jobs == old(m).jobs
            &&& final(m).wallets == old(m).wallets
        },
{
    if m.find_application(&ctx.job_post, &ctx.signer).is_some() {
        return Err(ErrorCode::AlreadyExists);
    }
    match m.find_user(&ctx.signer) {
        None => {
            return Err(ErrorCode::Unauthorized);
        },
        Some(i) => {
            proof {
                m.lemma_user(i as int, ctx.signer@);
            }
            match m.users[i].role {
                UserRole::Freelancer => {},
                UserRole::Client => {
                    return Err(ErrorCode::Unauthorized);
                },
            }
        },
    }
    if expected_end_date < 0 {
        return Err(ErrorCode::InvalidDates);
    }
    if m.find_job(&ctx.job_post).is_none() {
        return Err(ErrorCode::NotFound);
    }
    if !fits(&resume_link, MAX_LINK_LEN) {
        return Err(ErrorCode::TextTooLong);
    }
    let application = Application {
        applicant: ctx.signer,
        job_post: ctx.job_post,
        resume_link,
        approved: false,
        completed: false,
        submission_link: String::new(),
        narration: String::new(),
        client_review: String::new(),
        expected_end_date,
    };
    m.applications.push(application);
    proof {
        let before = *old(m);
        let n = before.applications@.len() as int;
        assert forall|x: int, y: int|
            0 <= x < m.applications@.len() && 0 <= y < m.applications@.len()
                && #[trigger] m.applications@[x].job_post@ == #[trigger] m.applications@[y].job_post@
                && m.applications@[x].applicant@ == m.applications@[y].applicant@ implies x
            == y by {
            if x < n && y == n {
                assert(before.app_at(x, ctx.job_post@, ctx.signer@));
            } else if y < n && x == n {
                assert(before.app_at(y, ctx.job_post@, ctx.signer@));
            } else if x < n && y < n {
                assert(before.applications@[x] == m.applications@[x]);
                assert(before.applications@[y] == m.applications@[y]);
            }
        }
        assert forall|x: int| 0 <= x < m.applications@.len()
            && #[trigger] m.applications@[x].approved implies m.job_filled(
            m.applications@[x].job_post@,
        ) by {
            assert(before.applications@[x] == m.applications@[x]);
            let k = before.applications@[x].job_post@;
            assert(before.job_filled(k));
            let c = choose|c: int| before.job_at(c, k) && before.jobs@[c].post.is_filled;
            assert(m.job_at(c, k));
        }
        assert forall|x: int, y: int|
            0 <= x < m.applications@.len() && 0 <= y < m.applications@.len()
                && #[trigger] m.applications@[x].approved && #[trigger] m.applications@[y].approved
                && m.applications@[x].job_post@ == m.applications@[y].job_post@ implies x == y by {
            assert(before.applications@[x] == m.applications@[x]);
            assert(before.applications@[y] == m.applications@[y]);
        }
        assert forall|x: int| 0 <= x < m.applications@.len()
            && #[trigger] m.applications@[x].completed implies m.applications@[x].approved by {
            assert(before.applications@[x] == m.applications@[x]);
        }
    }
    Ok(())
}

/// Which outcome `submit_work` owes, on the marketplace as it was before
/// the call.
pub open spec fn submit_outcome(
    m: Marketplace,
    ctx: SubmitWork,
    submission_link: Seq<char>,
    narration: Seq<char>,
) -> Result<(), ErrorCode> {
    if !m.is_role(ctx.signer@, UserRole::Freelancer) {
        Err(ErrorCode::Unauthorized)
    } else if !m.has_application(ctx.job_post@, ctx.signer@) {
        Err(ErrorCode::NotFound)
    } else if !m.app_of(ctx.job_post@, ctx.signer@).approved {
        Err(ErrorCode::ApplicationNotApproved)
    } else if m.has_job(ctx.job_post@) && m.job_of(ctx.job_post@).post.is_paid {
        Err(ErrorCode::WorkNotCompleted)
    } else if submission_link.len() > MAX_LINK_LEN || narration.len() > MAX_TEXT_LEN {
        Err(ErrorCode::TextTooLong)
    } else {
        Ok(())
    }
}

/// The calling freelancer submits work on an approved application; a later
/// submission replaces an earlier one until the job is paid, after which the
/// application is closed.
pub fn submit_work(
    m: &mut Marketplace,
    ctx: &SubmitWork,
    submission_link: String,
    narration: String,
) -> (r: Result<(), ErrorCode>)
    requires
        old(m).wf(),
    ensures
        final(m).wf(),
        r == submit_outcome(*old(m), *ctx, submission_link@, narration@),
        r is Err ==> *final(m) == *old(m),
        r is Ok ==> {
            let a = old(m).app_index(ctx.job_post@, ctx.signer@);
            &&& final(m).applications@ == old(m).applications@.update(
                a,
                (Application {
                    submission_link: submission_link,
                    narration: narration,
                    completed: true,
                    ..old(m).applications@[a]
                }),
            )
            &&& final(m).users == old(m).users
            &&& final(m).jobs == old(m).jobs
            &&& final(m).wallets == old(m).wallets
        },
{
    match m.find_user(&ctx.signer) {
        None => {
            return Err(ErrorCode::Unauthorized);
        },
        Some(i) => {
            proof {
                m.lemma_user(i as int, ctx.signer@);
            }
            match m.users[i].role {
                UserRole::Freelancer => {},
                UserRole::Client => {
                    return Err(ErrorCode::Unauthorized);
                },
            }
        },
    }
    let a = match m.find_application(&ctx.job_post, &ctx.signer) {
        Some(a) => a,
        None => {
            return Err(ErrorCode::NotFound);
        },
    };
    proof {
        m.lemma_app(a as int, ctx.job_post@, ctx.signer@);
    }
    if !m.applications[a].approved {
        return Err(ErrorCode::ApplicationNotApproved);
    }
    match m.find_job(&ctx.job_post) {
        Some(j) => {
            proof {
                m.lemma_job(j as int, ctx.job_post@);
            }
            if m.jobs[j].post.is_paid {
                return Err(ErrorCode::WorkNotCompleted);
            }
        },
        None => {},
    }
    if !fits(&submission_link, MAX_LINK_LEN) || !fits(&narration, MAX_TEXT_LEN) {
        return Err(ErrorCode::TextTooLong);
    }
    m.applications[a].submission_link = submission_link;
    m.applications[a].narration = narration;
    m.applications[a].completed = true;
    proof {
        lemma_wf_same_approvals(*old(m), *m);
    }
    Ok(())
}

} // verus!
