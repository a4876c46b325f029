use anchor_lang::solana_program::pubkey::Pubkey;
use lp_program::accounts::{
    ApplyToJob, ApproveApplication, ApproveSubmission, ErrorCode, InitializeJobPost, Key,
    RegisterUser, SubmitWork, UserRole,
};
use lp_program::derivation::program_id;
use lp_program::instructions::{
    apply_to_job, approve_application, approve_submission, initialize_job_post, register_user,
    submit_work,
};
use lp_program::ledger::Marketplace;

const CLIENT: Key = [1u8; 32];
const FREELANCER: Key = [2u8; 32];
const OTHER_FREELANCER: Key = [3u8; 32];
const OTHER_CLIENT: Key = [4u8; 32];
const LOGO_JOB: Key = [10u8; 32];
const NOW: i64 = 1_700_000_000;

fn balance(m: &Marketplace, who: &Key) -> u64 {
    m.wallets.iter().find(|w| w.owner == *who).map(|w| w.lamports).unwrap_or(0)
}

fn register(m: &mut Marketplace, who: Key, name: &str, role: UserRole) {
    assert_eq!(register_user(m, &RegisterUser { signer: who }, name.to_string(), role), Ok(()));
}

fn post(m: &mut Marketplace, client: Key, job: Key, title: &str, amount: u64) -> Result<(), ErrorCode> {
    let ctx = InitializeJobPost { signer: client, job_post: job, now: NOW };
    initialize_job_post(m, &ctx, title.to_string(), "a description".to_string(), amount, NOW, NOW + 86_400)
}

fn apply(m: &mut Marketplace, who: Key, job: Key, resume: &str) -> Result<(), ErrorCode> {
    apply_to_job(m, &ApplyToJob { signer: who, job_post: job }, resume.to_string(), NOW + 3_600)
}

fn approve(m: &mut Marketplace, client: Key, job: Key, applicant: Key) -> Result<(), ErrorCode> {
    approve_application(m, &ApproveApplication { signer: client, job_post: job, applicant })
}

fn submit(m: &mut Marketplace, who: Key, job: Key) -> Result<(), ErrorCode> {
    submit_work(m, &SubmitWork { signer: who, job_post: job }, "link1".to_string(), "done".to_string())
}

fn sign_off(m: &mut Marketplace, client: Key, job: Key, freelancer: Key) -> Result<(), ErrorCode> {
    let ctx = ApproveSubmission { signer: client, job_post: job, freelancer };
    approve_submission(m, &ctx, "great".to_string())
}

/// A client with 1000 lamports, a freelancer, and the "Logo" job for 100.
fn logo_market() -> Marketplace {
    let mut m = Marketplace::new();
    register(&mut m, CLIENT, "C", UserRole::Client);
    m.deposit(&CLIENT, 1000).unwrap();
    assert_eq!(post(&mut m, CLIENT, LOGO_JOB, "Logo", 100), Ok(()));
    register(&mut m, FREELANCER, "F", UserRole::Freelancer);
    m
}

#[test]
fn logo_job_runs_from_post_to_payout() {
    let mut m = logo_market();
    assert_eq!(m.jobs.len(), 1);
    assert_eq!(m.jobs[0].escrow.lamports, 100);
    assert_eq!(m.jobs[0].post.title, "Logo");
    assert!(!m.jobs[0].post.is_filled);
    assert_eq!(balance(&m, &CLIENT), 900);

    assert_eq!(apply(&mut m, FREELANCER, LOGO_JOB, "r1"), Ok(()));
    register(&mut m, OTHER_FREELANCER, "G", UserRole::Freelancer);
    assert_eq!(apply(&mut m, OTHER_FREELANCER, LOGO_JOB, "r2"), Ok(()));
    assert_eq!(m.applications[0].resume_link, "r1");

    assert_eq!(approve(&mut m, CLIENT, LOGO_JOB, FREELANCER), Ok(()));
    assert!(m.jobs[0].post.is_filled);
    assert!(m.applications[0].approved);
    assert_eq!(approve(&mut m, CLIENT, LOGO_JOB, OTHER_FREELANCER), Err(ErrorCode::JobAlreadyFilled));
    assert!(!m.applications[1].approved);

    assert_eq!(submit(&mut m, FREELANCER, LOGO_JOB), Ok(()));
    assert!(m.applications[0].completed);
    assert_eq!(m.applications[0].submission_link, "link1");
    assert_eq!(m.applications[0].narration, "done");

    let before = balance(&m, &FREELANCER);
    assert_eq!(sign_off(&mut m, CLIENT, LOGO_JOB, FREELANCER), Ok(()));
    assert_eq!(m.jobs[0].escrow.lamports, 0);
    assert_eq!(balance(&m, &FREELANCER), before + 100);
    assert_eq!(m.applications[0].client_review, "great");
}

#[test]
fn post_job_with_past_start_date_fails() {
    let mut m = Marketplace::new();
    register(&mut m, CLIENT, "C", UserRole::Client);
    m.deposit(&CLIENT, 1000).unwrap();
    let ctx = InitializeJobPost { signer: CLIENT, job_post: LOGO_JOB, now: NOW };
    let r = initialize_job_post(&mut m, &ctx, "Logo".to_string(), "d".to_string(), 100, NOW - 1, NOW + 10);
    assert_eq!(r, Err(ErrorCode::InvalidDates));
    assert!(m.jobs.is_empty());
    assert_eq!(balance(&m, &CLIENT), 1000);
}

#[test]
fn end_before_start_is_invalid() {
    let mut m = Marketplace::new();
    register(&mut m, CLIENT, "C", UserRole::Client);
    m.deposit(&CLIENT, 1000).unwrap();
    let ctx = InitializeJobPost { signer: CLIENT, job_post: LOGO_JOB, now: NOW };
    let r = initialize_job_post(&mut m, &ctx, "Logo".to_string(), "d".to_string(), 100, NOW + 10, NOW + 5);
    assert_eq!(r, Err(ErrorCode::InvalidDates));
    assert!(m.jobs.is_empty());
}

#[test]
fn start_now_and_equal_dates_are_accepted() {
    let mut m = Marketplace::new();
    register(&mut m, CLIENT, "C", UserRole::Client);
    let ctx = InitializeJobPost { signer: CLIENT, job_post: LOGO_JOB, now: NOW };
    let r = initialize_job_post(&mut m, &ctx, "Free".to_string(), "d".to_string(), 0, NOW, NOW);
    assert_eq!(r, Ok(()));
    assert_eq!(m.jobs[0].post.start_date, NOW);
    assert_eq!(m.jobs[0].post.end_date, NOW);
}

#[test]
fn registering_twice_fails() {
    let mut m = Marketplace::new();
    register(&mut m, CLIENT, "C", UserRole::Client);
    let r = register_user(&mut m, &RegisterUser { signer: CLIENT }, "again".to_string(), UserRole::Freelancer);
    assert_eq!(r, Err(ErrorCode::AlreadyExists));
    assert_eq!(m.users.len(), 1);
    assert_eq!(m.users[0].role, UserRole::Client);
    assert_eq!(m.users[0].name, "C");
}

#[test]
fn only_clients_post_jobs() {
    let mut m = Marketplace::new();
    register(&mut m, FREELANCER, "F", UserRole::Freelancer);
    m.deposit(&FREELANCER, 1000).unwrap();
    assert_eq!(post(&mut m, FREELANCER, LOGO_JOB, "Logo", 100), Err(ErrorCode::Unauthorized));
    assert_eq!(post(&mut m, CLIENT, LOGO_JOB, "Logo", 0), Err(ErrorCode::Unauthorized));
    assert!(m.jobs.is_empty());
    assert_eq!(balance(&m, &FREELANCER), 1000);
}

#[test]
fn only_freelancers_apply() {
    let mut m = logo_market();
    register(&mut m, OTHER_CLIENT, "D", UserRole::Client);
    assert_eq!(apply(&mut m, OTHER_CLIENT, LOGO_JOB, "r"), Err(ErrorCode::Unauthorized));
    assert_eq!(apply(&mut m, OTHER_FREELANCER, LOGO_JOB, "r"), Err(ErrorCode::Unauthorized));
    assert!(m.applications.is_empty());
}

#[test]
fn duplicate_job_is_refused() {
    let mut m = logo_market();
    assert_eq!(post(&mut m, CLIENT, [11u8; 32], "Logo", 10), Err(ErrorCode::AlreadyExists));
    assert_eq!(post(&mut m, CLIENT, LOGO_JOB, "Banner", 10), Err(ErrorCode::AlreadyExists));
    assert_eq!(m.jobs.len(), 1);
    assert_eq!(balance(&m, &CLIENT), 900);
    assert_eq!(post(&mut m, CLIENT, [11u8; 32], "Banner", 10), Ok(()));
    assert_eq!(balance(&m, &CLIENT), 890);
}

#[test]
fn posting_beyond_balance_fails_and_debits_nothing() {
    let mut m = logo_market();
    assert_eq!(post(&mut m, CLIENT, [11u8; 32], "Banner", 901), Err(ErrorCode::InsufficientFunds));
    assert_eq!(m.jobs.len(), 1);
    assert_eq!(balance(&m, &CLIENT), 900);
    assert_eq!(post(&mut m, CLIENT, [11u8; 32], "Banner", 900), Ok(()));
    assert_eq!(balance(&m, &CLIENT), 0);
}

#[test]
fn negative_expected_end_date_is_invalid() {
    let mut m = logo_market();
    let r = apply_to_job(&mut m, &ApplyToJob { signer: FREELANCER, job_post: LOGO_JOB }, "r1".to_string(), -1);
    assert_eq!(r, Err(ErrorCode::InvalidDates));
    let r = apply_to_job(&mut m, &ApplyToJob { signer: FREELANCER, job_post: LOGO_JOB }, "r1".to_string(), 0);
    assert_eq!(r, Ok(()));
    assert_eq!(m.applications[0].expected_end_date, 0);
    assert!(!m.applications[0].approved);
    assert!(!m.applications[0].completed);
    assert_eq!(m.applications[0].submission_link, "");
    assert_eq!(m.applications[0].narration, "");
    assert_eq!(m.applications[0].client_review, "");
}

#[test]
fn applying_to_unknown_job_fails() {
    let mut m = logo_market();
    assert_eq!(apply(&mut m, FREELANCER, [99u8; 32], "r1"), Err(ErrorCode::NotFound));
}

#[test]
fn applying_twice_fails() {
    let mut m = logo_market();
    assert_eq!(apply(&mut m, FREELANCER, LOGO_JOB, "r1"), Ok(()));
    assert_eq!(apply(&mut m, FREELANCER, LOGO_JOB, "r2"), Err(ErrorCode::AlreadyExists));
    assert_eq!(m.applications.len(), 1);
    assert_eq!(m.applications[0].resume_link, "r1");
}

#[test]
fn approving_before_applying_fails() {
    let mut m = logo_market();
    assert_eq!(approve(&mut m, CLIENT, LOGO_JOB, FREELANCER), Err(ErrorCode::NotFound));
    assert!(!m.jobs[0].post.is_filled);
}

#[test]
fn only_the_jobs_client_approves() {
    let mut m = logo_market();
    assert_eq!(apply(&mut m, FREELANCER, LOGO_JOB, "r1"), Ok(()));
    register(&mut m, OTHER_CLIENT, "D", UserRole::Client);
    assert_eq!(approve(&mut m, OTHER_CLIENT, LOGO_JOB, FREELANCER), Err(ErrorCode::Unauthorized));
    assert_eq!(approve(&mut m, FREELANCER, LOGO_JOB, FREELANCER), Err(ErrorCode::Unauthorized));
    assert!(!m.applications[0].approved);
    assert!(!m.jobs[0].post.is_filled);
}

#[test]
fn one_approval_per_job() {
    let mut m = logo_market();
    register(&mut m, OTHER_FREELANCER, "G", UserRole::Freelancer);
    assert_eq!(apply(&mut m, FREELANCER, LOGO_JOB, "r1"), Ok(()));
    assert_eq!(apply(&mut m, OTHER_FREELANCER, LOGO_JOB, "r2"), Ok(()));
    assert_eq!(approve(&mut m, CLIENT, LOGO_JOB, OTHER_FREELANCER), Ok(()));
    assert_eq!(approve(&mut m, CLIENT, LOGO_JOB, FREELANCER), Err(ErrorCode::JobAlreadyFilled));
    assert_eq!(approve(&mut m, CLIENT, LOGO_JOB, OTHER_FREELANCER), Err(ErrorCode::JobAlreadyFilled));
    assert_eq!(m.applications.iter().filter(|a| a.approved).count(), 1);
}

#[test]
fn submitting_unapproved_work_fails() {
    let mut m = logo_market();
    assert_eq!(apply(&mut m, FREELANCER, LOGO_JOB, "r1"), Ok(()));
    assert_eq!(submit(&mut m, FREELANCER, LOGO_JOB), Err(ErrorCode::ApplicationNotApproved));
    assert!(!m.applications[0].completed);
    assert_eq!(submit(&mut m, OTHER_FREELANCER, LOGO_JOB), Err(ErrorCode::Unauthorized));
}

#[test]
fn resubmission_replaces_the_submission() {
    let mut m = logo_market();
    assert_eq!(apply(&mut m, FREELANCER, LOGO_JOB, "r1"), Ok(()));
    assert_eq!(approve(&mut m, CLIENT, LOGO_JOB, FREELANCER), Ok(()));
    assert_eq!(submit(&mut m, FREELANCER, LOGO_JOB), Ok(()));
    let ctx = SubmitWork { signer: FREELANCER, job_post: LOGO_JOB };
    assert_eq!(submit_work(&mut m, &ctx, "link2".to_string(), "redone".to_string()), Ok(()));
    assert_eq!(m.applications[0].submission_link, "link2");
    assert_eq!(m.applications[0].narration, "redone");
}

#[test]
fn signing_off_before_completion_fails() {
    let mut m = logo_market();
    assert_eq!(apply(&mut m, FREELANCER, LOGO_JOB, "r1"), Ok(()));
    assert_eq!(approve(&mut m, CLIENT, LOGO_JOB, FREELANCER), Ok(()));
    assert_eq!(sign_off(&mut m, CLIENT, LOGO_JOB, FREELANCER), Err(ErrorCode::WorkNotCompleted));
    assert_eq!(m.jobs[0].escrow.lamports, 100);
    assert_eq!(balance(&m, &FREELANCER), 0);
    assert_eq!(m.applications[0].client_review, "");
}

#[test]
fn payout_happens_once() {
    let mut m = logo_market();
    assert_eq!(apply(&mut m, FREELANCER, LOGO_JOB, "r1"), Ok(()));
    assert_eq!(approve(&mut m, CLIENT, LOGO_JOB, FREELANCER), Ok(()));
    assert_eq!(submit(&mut m, FREELANCER, LOGO_JOB), Ok(()));
    assert_eq!(m.jobs[0].escrow.lamports, 100);
    assert_eq!(sign_off(&mut m, CLIENT, LOGO_JOB, FREELANCER), Ok(()));
    assert!(m.jobs[0].post.is_paid);
    assert_eq!(sign_off(&mut m, CLIENT, LOGO_JOB, FREELANCER), Err(ErrorCode::WorkNotCompleted));
    assert_eq!(balance(&m, &FREELANCER), 100);
    assert_eq!(m.jobs[0].escrow.lamports, 0);
}

#[test]
fn only_the_jobs_client_signs_off() {
    let mut m = logo_market();
    assert_eq!(apply(&mut m, FREELANCER, LOGO_JOB, "r1"), Ok(()));
    assert_eq!(approve(&mut m, CLIENT, LOGO_JOB, FREELANCER), Ok(()));
    assert_eq!(submit(&mut m, FREELANCER, LOGO_JOB), Ok(()));
    register(&mut m, OTHER_CLIENT, "D", UserRole::Client);
    assert_eq!(sign_off(&mut m, OTHER_CLIENT, LOGO_JOB, FREELANCER), Err(ErrorCode::Unauthorized));
    assert_eq!(sign_off(&mut m, CLIENT, [99u8; 32], FREELANCER), Err(ErrorCode::NotFound));
    assert_eq!(sign_off(&mut m, CLIENT, LOGO_JOB, OTHER_FREELANCER), Err(ErrorCode::NotFound));
    assert_eq!(m.jobs[0].escrow.lamports, 100);
}

#[test]
fn payout_that_would_overflow_fails() {
    let mut m = logo_market();
    assert_eq!(apply(&mut m, FREELANCER, LOGO_JOB, "r1"), Ok(()));
    assert_eq!(approve(&mut m, CLIENT, LOGO_JOB, FREELANCER), Ok(()));
    assert_eq!(submit(&mut m, FREELANCER, LOGO_JOB), Ok(()));
    m.deposit(&FREELANCER, u64::MAX - 99).unwrap();
    assert_eq!(sign_off(&mut m, CLIENT, LOGO_JOB, FREELANCER), Err(ErrorCode::BalanceOverflow));
    assert_eq!(m.jobs[0].escrow.lamports, 100);
    assert!(!m.jobs[0].post.is_paid);
}

#[test]
fn deposit_that_would_overflow_fails() {
    let mut m = Marketplace::new();
    assert_eq!(m.deposit(&CLIENT, u64::MAX), Ok(()));
    assert_eq!(m.deposit(&CLIENT, 1), Err(ErrorCode::BalanceOverflow));
    assert_eq!(balance(&m, &CLIENT), u64::MAX);
    assert_eq!(m.deposit(&FREELANCER, 5), Ok(()));
    assert_eq!(balance(&m, &FREELANCER), 5);
}

#[test]
fn escrow_lies_at_the_derived_program_address() {
    let m = logo_market();
    let (expected, bump) = Pubkey::find_program_address(
        &[b"escrow", &LOGO_JOB[..]],
        &Pubkey::new_from_array(program_id()),
    );
    assert_eq!(m.jobs[0].escrow.address, expected.to_bytes());
    assert_eq!(m.jobs[0].post.escrow_bump, bump);
    assert_ne!(m.jobs[0].escrow.address, LOGO_JOB);
}

#[test]
fn program_id_is_the_declared_address() {
    assert_eq!(
        Pubkey::new_from_array(program_id()).to_string(),
        "AvTfTNzZfqg666MTy6N4MaeMwdZxa8rBGgdsgkdGoXPK"
    );
}

#[test]
fn tampered_escrow_is_refused_at_payout() {
    let mut m = logo_market();
    assert_eq!(apply(&mut m, FREELANCER, LOGO_JOB, "r1"), Ok(()));
    assert_eq!(approve(&mut m, CLIENT, LOGO_JOB, FREELANCER), Ok(()));
    assert_eq!(submit(&mut m, FREELANCER, LOGO_JOB), Ok(()));
    m.jobs[0].escrow.address = [7u8; 32];
    assert_eq!(sign_off(&mut m, CLIENT, LOGO_JOB, FREELANCER), Err(ErrorCode::EscrowMismatch));
    assert_eq!(balance(&m, &FREELANCER), 0);
}


#[test]
fn duplicate_job_wins_over_bad_dates() {
    let mut m = logo_market();
    let ctx = InitializeJobPost { signer: CLIENT, job_post: [11u8; 32], now: NOW };
    let r = initialize_job_post(&mut m, &ctx, "Logo".to_string(), "d".to_string(), 10, NOW + 10, NOW + 5);
    assert_eq!(r, Err(ErrorCode::AlreadyExists));
    let ctx = InitializeJobPost { signer: FREELANCER, job_post: LOGO_JOB, now: NOW };
    let r = initialize_job_post(&mut m, &ctx, "Other".to_string(), "d".to_string(), 10, NOW, NOW);
    assert_eq!(r, Err(ErrorCode::AlreadyExists));
    assert_eq!(m.jobs.len(), 1);
    assert_eq!(balance(&m, &CLIENT), 900);
}

#[test]
fn duplicate_application_wins_over_bad_dates() {
    let mut m = logo_market();
    assert_eq!(apply(&mut m, FREELANCER, LOGO_JOB, "r1"), Ok(()));
    let r = apply_to_job(&mut m, &ApplyToJob { signer: FREELANCER, job_post: LOGO_JOB }, "r2".to_string(), -1);
    assert_eq!(r, Err(ErrorCode::AlreadyExists));
    assert_eq!(m.applications.len(), 1);
    assert_eq!(m.applications[0].resume_link, "r1");
}

#[test]
fn work_cannot_change_after_payout() {
    let mut m = logo_market();
    assert_eq!(apply(&mut m, FREELANCER, LOGO_JOB, "r1"), Ok(()));
    assert_eq!(approve(&mut m, CLIENT, LOGO_JOB, FREELANCER), Ok(()));
    assert_eq!(submit(&mut m, FREELANCER, LOGO_JOB), Ok(()));
    assert_eq!(sign_off(&mut m, CLIENT, LOGO_JOB, FREELANCER), Ok(()));
    let ctx = SubmitWork { signer: FREELANCER, job_post: LOGO_JOB };
    let r = submit_work(&mut m, &ctx, "link2".to_string(), "redone".to_string());
    assert_eq!(r, Err(ErrorCode::WorkNotCompleted));
    assert_eq!(m.applications[0].submission_link, "link1");
    assert_eq!(m.applications[0].narration, "done");
}

#[test]
fn over_long_texts_are_refused() {
    let mut m = Marketplace::new();
    let r = register_user(&mut m, &RegisterUser { signer: CLIENT }, "n".repeat(51), UserRole::Client);
    assert_eq!(r, Err(ErrorCode::TextTooLong));
    assert!(m.users.is_empty());
    register(&mut m, CLIENT, &"é".repeat(50), UserRole::Client);
    m.deposit(&CLIENT, 1000).unwrap();
    register(&mut m, FREELANCER, "F", UserRole::Freelancer);

    let ctx = InitializeJobPost { signer: CLIENT, job_post: LOGO_JOB, now: NOW };
    let r = initialize_job_post(&mut m, &ctx, "t".repeat(101), "d".to_string(), 100, NOW, NOW);
    assert_eq!(r, Err(ErrorCode::TextTooLong));
    let r = initialize_job_post(&mut m, &ctx, "Logo".to_string(), "d".repeat(501), 100, NOW, NOW);
    assert_eq!(r, Err(ErrorCode::TextTooLong));
    assert!(m.jobs.is_empty());
    assert_eq!(balance(&m, &CLIENT), 1000);
    let r = initialize_job_post(&mut m, &ctx, "t".repeat(100), "d".repeat(500), 100, NOW, NOW);
    assert_eq!(r, Ok(()));

    let r = apply_to_job(&mut m, &ApplyToJob { signer: FREELANCER, job_post: LOGO_JOB }, "r".repeat(201), 0);
    assert_eq!(r, Err(ErrorCode::TextTooLong));
    assert_eq!(apply(&mut m, FREELANCER, LOGO_JOB, &"r".repeat(200)), Ok(()));
    assert_eq!(approve(&mut m, CLIENT, LOGO_JOB, FREELANCER), Ok(()));

    let ctx = SubmitWork { signer: FREELANCER, job_post: LOGO_JOB };
    assert_eq!(submit_work(&mut m, &ctx, "l".repeat(201), "n".to_string()), Err(ErrorCode::TextTooLong));
    assert_eq!(submit_work(&mut m, &ctx, "l".to_string(), "n".repeat(301)), Err(ErrorCode::TextTooLong));
    assert!(!m.applications[0].completed);
    assert_eq!(submit(&mut m, FREELANCER, LOGO_JOB), Ok(()));

    let ctx = ApproveSubmission { signer: CLIENT, job_post: LOGO_JOB, freelancer: FREELANCER };
    assert_eq!(approve_submission(&mut m, &ctx, "v".repeat(301)), Err(ErrorCode::TextTooLong));
    assert_eq!(m.jobs[0].escrow.lamports, 100);
    assert_eq!(approve_submission(&mut m, &ctx, "v".repeat(300)), Ok(()));
    assert_eq!(balance(&m, &FREELANCER), 100);
}
