use vstd::prelude::*;
use vstd::string::StrSliceExecFns;

verus! {

/// A 32-byte account address or caller identity.
pub type Key = [u8; 32];

/// Compares two keys byte by byte.
pub fn same_key(a: &Key, b: &Key) -> (r: bool)
    ensures
        r == (a@ == b@),
{
    let mut i: usize = 0;
    while i < 32
        invariant
            i <= 32,
            a@.len() == 32,
            b@.len() == 32,
            forall|k: int| 0 <= k < i ==> a@[k] == b@[k],
        decreases 32 - i,
    {
        if a[i] != b[i] {
            assert(a@[i as int] != b@[i as int]);
            return false;
        }
        i += 1;
    }
    assert(a@ =~= b@);
    true
}

/// Longest display name, in characters.
pub const MAX_NAME_LEN: usize = 50;

/// Longest job title, in characters.
pub const MAX_TITLE_LEN: usize = 100;

/// Longest job description, in characters.
pub const MAX_DESCRIPTION_LEN: usize = 500;

/// Longest resume or submission link, in characters.
pub const MAX_LINK_LEN: usize = 200;

/// Longest narration or client review, in characters.
pub const MAX_TEXT_LEN: usize = 300;

/// Whether `s` holds at most `limit` characters.
pub fn fits(s: &String, limit: usize) -> (r: bool)
    ensures
        r == (s@.len() <= limit),
{
    s.as_str().unicode_len() <= limit
}

/// The role an identity declares once, at registration.
#[derive(Clone, Copy, Debug, PartialEq, Eq, Structural)]
pub enum UserRole {
    Client,
    Freelancer,
}

/// Why an operation was rejected. A rejected operation changes nothing.
#[derive(Clone, Copy, Debug, PartialEq, Eq, Structural)]
pub enum ErrorCode {
    /// Wrong role, wrong caller, unregistered caller, or a record of another job.
    Unauthorized,
    /// The job already has an approved application.
    JobAlreadyFilled,
    /// Work was submitted for an application that was never approved.
    ApplicationNotApproved,
    /// Sign-off on work that was not submitted, or that was already paid.
    WorkNotCompleted,
    /// Dates out of order, in the past, or negative.
    InvalidDates,
    /// A record under that key already exists.
    AlreadyExists,
    /// The client cannot fund the escrow.
    InsufficientFunds,
    /// The escrow cannot be derived, or does not hold the job's amount.
    EscrowMismatch,
    /// No job or application record under that key.
    NotFound,
    /// Crediting the freelancer would overflow the balance.
    BalanceOverflow,
    /// A text is longer than its stored field allows.
    TextTooLong,
}

/// Identity record: one per owner identity, never changed after creation.
pub struct UserAccount {
    pub wallet: Key,
    pub name: String,
    pub role: UserRole,
}

/// A job post with the nonce that derives its escrow.
pub struct JobPost {
    pub client: Key,
    pub title: String,
    pub amount: u64,
    pub description: String,
    pub is_filled: bool,
    pub is_paid: bool,
    pub escrow_bump: u8,
    pub start_date: i64,
    pub end_date: i64,
}

/// The escrow sub-record of a job: its derived address and what it holds.
pub struct EscrowAccount {
    pub address: Key,
    pub lamports: u64,
}

/// A job post stored under its account key, together with its escrow.
pub struct JobAccount {
    pub key: Key,
    pub post: JobPost,
    pub escrow: EscrowAccount,
}

/// One freelancer's application to one job.
pub struct Application {
    pub applicant: Key,
    pub job_post: Key,
    pub resume_link: String,
    pub approved: bool,
    pub completed: bool,
    pub submission_link: String,
    pub narration: String,
    pub client_review: String,
    pub expected_end_date: i64,
}

/// Spendable funds of one identity.
pub struct Wallet {
    pub owner: Key,
    pub lamports: u64,
}

/// Caller of `register_user`.
pub struct RegisterUser {
    pub signer: Key,
}

/// Caller of `initialize_job_post`, the key of the new job account, and the
/// current time in seconds.
pub struct InitializeJobPost {
    pub signer: Key,
    pub job_post: Key,
    pub now: i64,
}

/// Caller of `apply_to_job` and the job applied to.
pub struct ApplyToJob {
    pub signer: Key,
    pub job_post: Key,
}

/// Caller of `approve_application`, the job, and the applicant whose
/// application is approved.
pub struct ApproveApplication {
    pub signer: Key,
    pub job_post: Key,
    pub applicant: Key,
}

/// Caller of `submit_work` and the job of the caller's application.
pub struct SubmitWork {
    pub signer: Key,
    pub job_post: Key,
}

/// Caller of `approve_submission`, the job, and the freelancer who is paid.
pub struct ApproveSubmission {
    pub signer: Key,
    pub job_post: Key,
    pub freelancer: Key,
}

} // verus!
