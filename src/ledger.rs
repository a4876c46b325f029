use vstd::prelude::*;
use crate::accounts::{
    same_key, Application, ErrorCode, JobAccount, Key, UserAccount, UserRole, Wallet,
};
use crate::derivation::escrow_address_for;

verus! {

/// Every record of the marketplace: identities, jobs with their escrows,
/// applications, and the spendable balances of identities.
pub struct Marketplace {
    pub users: Vec<UserAccount>,
    pub jobs: Vec<JobAccount>,
    pub applications: Vec<Application>,
    pub wallets: Vec<Wallet>,
}

impl Marketplace {
    pub open spec fn user_at(self, i: int, k: Seq<u8>) -> bool {
        0 <= i < self.users@.len() && self.users@[i].wallet@ == k
    }

    pub open spec fn job_at(self, j: int, k: Seq<u8>) -> bool {
        0 <= j < self.jobs@.len() && self.jobs@[j].key@ == k
    }

    pub open spec fn app_at(self, a: int, job: Seq<u8>, applicant: Seq<u8>) -> bool {
        0 <= a < self.applications@.len() && self.applications@[a].job_post@ == job
            && self.applications@[a].applicant@ == applicant
    }

    pub open spec fn wallet_at(self, w: int, k: Seq<u8>) -> bool {
        0 <= w < self.wallets@.len() && self.wallets@[w].owner@ == k
    }

    pub open spec fn has_user(self, k: Seq<u8>) -> bool {
        exists|i: int| self.user_at(i, k)
    }

    pub open spec fn has_job(self, k: Seq<u8>) -> bool {
        exists|j: int| self.job_at(j, k)
    }

    pub open spec fn has_application(self, job: Seq<u8>, applicant: Seq<u8>) -> bool {
        exists|a: int| self.app_at(a, job, applicant)
    }

    pub open spec fn has_wallet(self, k: Seq<u8>) -> bool {
        exists|w: int| self.wallet_at(w, k)
    }

    /// Whether some job of `client` carries this title.
    pub open spec fn has_title(self, client: Seq<u8>, title: Seq<char>) -> bool {
        exists|j: int|
            0 <= j < self.jobs@.len() && #[trigger] self.jobs@[j].post.client@ == client
                && self.jobs@[j].post.title@ == title
    }

    pub open spec fn user_of(self, k: Seq<u8>) -> UserAccount {
        self.users@[choose|i: int| self.user_at(i, k)]
    }

    pub open spec fn job_index(self, k: Seq<u8>) -> int {
        choose|j: int| self.job_at(j, k)
    }

    pub open spec fn job_of(self, k: Seq<u8>) -> JobAccount {
        self.jobs@[self.job_index(k)]
    }

    pub open spec fn app_index(self, job: Seq<u8>, applicant: Seq<u8>) -> int {
        choose|a: int| self.app_at(a, job, applicant)
    }

    pub open spec fn app_of(self, job: Seq<u8>, applicant: Seq<u8>) -> Application {
        self.applications@[self.app_index(job, applicant)]
    }

    /// Whether `k` is registered with role `role`.
    pub open spec fn is_role(self, k: Seq<u8>, role: UserRole) -> bool {
        self.has_user(k) && self.user_of(k).role == role
    }

    /// The spendable balance of an identity; one without a wallet has none.
    pub open spec fn balance_of(self, k: Seq<u8>) -> nat {
        if self.has_wallet(k) {
            self.wallets@[choose|w: int| self.wallet_at(w, k)].lamports as nat
        } else {
            0
        }
    }

    /// Whether a filled job is stored under `k`.
    pub open spec fn job_filled(self, k: Seq<u8>) -> bool {
        exists|j: int| self.job_at(j, k) && self.jobs@[j].post.is_filled
    }

    /// What each escrow holds: the job's amount until it is paid, then nothing.
    pub open spec fn escrow_matches(job: JobAccount) -> bool {
        &&& job.escrow.lamports == (if job.post.is_paid { 0 } else { job.post.amount })
        &&& job.post.is_paid ==> job.post.is_filled
        &&& escrow_address_for(job.key@, job.post.escrow_bump) == Some(job.escrow.address@)
    }

    /// The invariant of the marketplace: keys are unique, each escrow holds
    /// what its job owes, work is only completed on approved applications,
    /// each approved application belongs to a filled job, and no job has two
    /// approved applications.
    pub open spec fn wf(self) -> bool {
        &&& forall|i: int, j: int|
            #![trigger self.users@[i], self.users@[j]]
            0 <= i < self.users@.len() && 0 <= j < self.users@.len()
                && self.users@[i].wallet@ == self.users@[j].wallet@ ==> i == j
        &&& forall|i: int, j: int|
            #![trigger self.jobs@[i], self.jobs@[j]]
            0 <= i < self.jobs@.len() && 0 <= j < self.jobs@.len()
                && self.jobs@[i].key@ == self.jobs@[j].key@ ==> i == j
        &&& forall|i: int, j: int|
            #![trigger self.wallets@[i], self.wallets@[j]]
            0 <= i < self.wallets@.len() && 0 <= j < self.wallets@.len()
                && self.wallets@[i].owner@ == self.wallets@[j].owner@ ==> i == j
        &&& forall|a: int, b: int|
            #![trigger self.applications@[a], self.applications@[b]]
            0 <= a < self.applications@.len() && 0 <= b < self.applications@.len()
                && self.applications@[a].job_post@ == self.applications@[b].job_post@
                && self.applications@[a].applicant@ == self.applications@[b].applicant@ ==> a == b
        &&& forall|j: int| 0 <= j < self.jobs@.len() ==> Self::escrow_matches(#[trigger] self.jobs@[j])
        &&& forall|a: int|
            #![trigger self.applications@[a]]
            0 <= a < self.applications@.len() ==> {
                &&& self.applications@[a].completed ==> self.applications@[a].approved
                &&& self.applications@[a].approved ==> self.job_filled(
                    self.applications@[a].job_post@,
                )
            }
        &&& forall|a: int, b: int|
            #![trigger self.applications@[a], self.applications@[b]]
            0 <= a < self.applications@.len() && 0 <= b < self.applications@.len()
                && self.applications@[a].approved && self.applications@[b].approved
                && self.applications@[a].job_post@ == self.applications@[b].job_post@ ==> a == b
    }

    pub proof fn lemma_user(self, i: int, k: Seq<u8>)
        requires
            self.wf(),
            self.user_at(i, k),
        ensures
            self.has_user(k),
            self.user_of(k) == self.users@[i],
    {
        let c = choose|c: int| self.user_at(c, k);
        assert(self.user_at(c, k));
        assert(self.users@[c].wallet@ == self.users@[i].wallet@);
    }

    pub proof fn lemma_job(self, j: int, k: Seq<u8>)
        requires
            self.wf(),
            self.job_at(j, k),
        ensures
            self.has_job(k),
            self.job_index(k) == j,
            self.job_of(k) == self.jobs@[j],
    {
        let c = self.job_index(k);
        assert(self.job_at(c, k));
        assert(self.jobs@[c].key@ == self.jobs@[j].key@);
    }

    pub proof fn lemma_app(self, a: int, job: Seq<u8>, applicant: Seq<u8>)
        requires
            self.wf(),
            self.app_at(a, job, applicant),
        ensures
            self.has_application(job, applicant),
            self.app_index(job, applicant) == a,
            self.app_of(job, applicant) == self.applications@[a],
    {
        let c = self.app_index(job, applicant);
        assert(self.app_at(c, job, applicant));
        assert(self.applications@[c].job_post@ == self.applications@[a].job_post@);
    }

    pub proof fn lemma_wallet(self, w: int, k: Seq<u8>)
        requires
            self.wf(),
            self.wallet_at(w, k),
        ensures
            self.has_wallet(k),
            self.balance_of(k) == self.wallets@[w].lamports as nat,
    {
        let c = choose|c: int| self.wallet_at(c, k);
        assert(self.wallet_at(c, k));
        assert(self.wallets@[c].owner@ == self.wallets@[w].owner@);
    }

    /// An empty marketplace.
    pub fn new() -> (r: Marketplace)
        ensures
            r.wf(),
            r.users@.len() == 0,
            r.jobs@.len() == 0,
            r.applications@.len() == 0,
            r.wallets@.len() == 0,
    {
        Marketplace { users: Vec::new(), jobs: Vec::new(), applications: Vec::new(), wallets: Vec::new() }
    }

    pub fn find_user(&self, k: &Key) -> (r: Option<usize>)
        ensures
            match r {
                Some(i) => self.user_at(i as int, k@),
                None => !self.has_user(k@),
            },
    {
        let mut i: usize = 0;
        while i < self.users.len()
            invariant
                i <= self.users@.len(),
                forall|c: int| 0 <= c < i ==> !self.user_at(c, k@),
            decreases self.users@.len() - i,
        {
            if same_key(&self.users[i].wallet, k) {
                return Some(i);
            }
            i += 1;
        }
        None
    }

    pub fn find_job(&self, k: &Key) -> (r: Option<usize>)
        ensures
            match r {
                Some(j) => self.job_at(j as int, k@),
                None => !self.has_job(k@),
            },
    {
        let mut j: usize = 0;
        while j < self.jobs.len()
            invariant
                j <= self.jobs@.len(),
                forall|c: int| 0 <= c < j ==> !self.job_at(c, k@),
            decreases self.jobs@.len() - j,
        {
            if same_key(&self.jobs[j].key, k) {
                return Some(j);
            }
            j += 1;
        }
        None
    }

    pub fn find_title(&self, client: &Key, title: &String) -> (r: bool)
        ensures
            r == self.has_title(client@, title@),
    {
        let mut j: usize = 0;
        while j < self.jobs.len()
            invariant
                j <= self.jobs@.len(),
                forall|c: int|
                    0 <= c < j ==> !(#[trigger] self.jobs@[c].post.client@ == client@
                        && self.jobs@[c].post.title@ == title@),
            decreases self.jobs@.len() - j,
        {
            if same_key(&self.jobs[j].post.client, client) && self.jobs[j].post.title == *title {
                return true;
            }
            j += 1;
        }
        false
    }

    pub fn find_application(&self, job: &Key, applicant: &Key) -> (r: Option<usize>)
        ensures
            match r {
                Some(a) => self.app_at(a as int, job@, applicant@),
                None => !self.has_application(job@, applicant@),
            },
    {
        let mut a: usize = 0;
        while a < self.applications.len()
            invariant
                a <= self.applications@.len(),
                forall|c: int| 0 <= c < a ==> !self.app_at(c, job@, applicant@),
            decreases self.applications@.len() - a,
        {
            if same_key(&self.applications[a].job_post, job) && same_key(
                &self.applications[a].applicant,
                applicant,
            ) {
                return Some(a);
            }
            a += 1;
        }
        None
    }

    pub fn find_wallet(&self, k: &Key) -> (r: Option<usize>)
        ensures
            match r {
                Some(w) => self.wallet_at(w as int, k@),
                None => !self.has_wallet(k@),
            },
    {
        let mut w: usize = 0;
        while w < self.wallets.len()
            invariant
                w <= self.wallets@.len(),
                forall|c: int| 0 <= c < w ==> !self.wallet_at(c, k@),
            decreases self.wallets@.len() - w,
        {
            if same_key(&self.wallets[w].owner, k) {
                return Some(w);
            }
            w += 1;
        }
        None
    }
    /// Adds `amount` to the spendable balance of `who`, opening a wallet for
    /// an identity that has none. Fails, changing nothing, where the balance
    /// would overflow.
    pub fn deposit(&mut self, who: &Key, amount: u64) -> (r: Result<(), ErrorCode>)
        requires
            old(self).wf(),
        ensures
            final(self).wf(),
            old(self).balance_of(who@) + amount > u64::MAX ==> r == Err::<(), ErrorCode>(
                ErrorCode::BalanceOverflow,
            ) && *final(self) == *old(self),
            old(self).balance_of(who@) + amount <= u64::MAX ==> r == Ok::<(), ErrorCode>(())
                && final(self).balance_of(who@) == old(self).balance_of(who@) + amount,
            forall|k: Seq<u8>| k != who@ ==> final(self).balance_of(k) == old(self).balance_of(k),
            final(self).users == old(self).users,
            final(self).jobs == old(self).jobs,
            final(self).applications == old(self).applications,
    {
        match self.find_wallet(who) {
            Some(w) => {
                proof {
                    self.lemma_wallet(w as int, who@);
                }
                let cur = self.wallets[w].lamports;
                if cur > u64::MAX - amount {
                    return Err(ErrorCode::BalanceOverflow);
                }
                self.wallets[w].lamports = cur + amount;
                proof {
                    assert(self.wallets@ =~= old(self).wallets@.update(
                        w as int,
                        self.wallets@[w as int],
                    ));
                    lemma_wf_frame(*old(self), *self);
                    assert(self.wallet_at(w as int, who@));
                    lemma_other_balances(*old(self), *self, who@);
                    self.lemma_wallet(w as int, who@);
                }
            },
            None => {
                let ghost before = *self;
                self.wallets.push(Wallet { owner: *who, lamports: amount });
                proof {
                    assert forall|c: int| 0 <= c < before.wallets@.len() implies
                        #[trigger] self.wallets@[c].owner@ != who@ by {
                        assert(!before.wallet_at(c, who@));
                    }
                    lemma_wf_frame(before, *self);
                    lemma_other_balances(before, *self, who@);
                    assert(self.wallet_at(before.wallets@.len() as int, who@));
                    self.lemma_wallet(before.wallets@.len() as int, who@);
                }
            },
        }
        Ok(())
    }

    /// Takes `amount` from the spendable balance of `who`.
    pub(crate) fn withdraw(&mut self, who: &Key, amount: u64)
        requires
            old(self).wf(),
            amount <= old(self).balance_of(who@),
        ensures
            final(self).wf(),
            final(self).balance_of(who@) == old(self).balance_of(who@) - amount,
            forall|k: Seq<u8>| k != who@ ==> final(self).balance_of(k) == old(self).balance_of(k),
            final(self).users == old(self).users,
            final(self).jobs == old(self).jobs,
            final(self).applications == old(self).applications,
    {
        match self.find_wallet(who) {
            Some(w) => {
                proof {
                    self.lemma_wallet(w as int, who@);
                }
                let cur = self.wallets[w].lamports;
                self.wallets[w].lamports = cur - amount;
                proof {
                    assert(self.wallets@ =~= old(self).wallets@.update(
                        w as int,
                        self.wallets@[w as int],
                    ));
                    lemma_wf_frame(*old(self), *self);
                    assert(self.wallet_at(w as int, who@));
                    lemma_other_balances(*old(self), *self, who@);
                    self.lemma_wallet(w as int, who@);
                }
            },
            None => {},
        }
    }
}

/// The invariant survives a change to identities and wallets alone that
/// keeps their keys unique.
pub(crate) proof fn lemma_wf_frame(before: Marketplace, after: Marketplace)
    requires
        before.wf(),
        forall|i: int, j: int|
            #![trigger after.users@[i], after.users@[j]]
            0 <= i < after.users@.len() && 0 <= j < after.users@.len()
                && after.users@[i].wallet@ == after.users@[j].wallet@ ==> i == j,
        after.jobs == before.jobs,
        after.applications == before.applications,
        forall|i: int, j: int|
            #![trigger after.wallets@[i], after.wallets@[j]]
            0 <= i < after.wallets@.len() && 0 <= j < after.wallets@.len()
                && after.wallets@[i].owner@ == after.wallets@[j].owner@ ==> i == j,
    ensures
        after.wf(),
{
    assert forall|a: int| 0 <= a < after.applications@.len()
        && #[trigger] after.applications@[a].approved implies after.job_filled(
        after.applications@[a].job_post@,
    ) by {
        assert(before.job_filled(before.applications@[a].job_post@));
        let j = choose|j: int|
            before.job_at(j, before.applications@[a].job_post@) && before.jobs@[j].post.is_filled;
        assert(after.job_at(j, after.applications@[a].job_post@));
    }
}

/// Balances are a function of the wallets alone.
pub(crate) proof fn lemma_balances_frame(before: Marketplace, after: Marketplace)
    requires
        before.wf(),
        after.wf(),
        after.wallets == before.wallets,
    ensures
        forall|k: Seq<u8>| #[trigger] after.balance_of(k) == before.balance_of(k),
{
    assert forall|k: Seq<u8>| #[trigger] after.balance_of(k) == before.balance_of(k) by {
        if before.has_wallet(k) {
            let c = choose|c: int| before.wallet_at(c, k);
            before.lemma_wallet(c, k);
            assert(after.wallet_at(c, k));
            after.lemma_wallet(c, k);
        } else if after.has_wallet(k) {
            let c = choose|c: int| after.wallet_at(c, k);
            assert(before.wallet_at(c, k));
        }
    }
}

/// The invariant survives changes that keep every key, every approval and
/// every filled flag, leave completed work approved, and leave each escrow
/// holding what its job owes.
pub(crate) proof fn lemma_wf_same_approvals(before: Marketplace, after: Marketplace)
    requires
        before.wf(),
        after.users == before.users,
        after.wallets == before.wallets,
        after.jobs@.len() == before.jobs@.len(),
        after.applications@.len() == before.applications@.len(),
        forall|j: int|
            #![trigger after.jobs@[j]]
            0 <= j < after.jobs@.len() ==> {
                &&& after.jobs@[j].key@ == before.jobs@[j].key@
                &&& after.jobs@[j].post.is_filled == before.jobs@[j].post.is_filled
                &&& Marketplace::escrow_matches(after.jobs@[j])
            },
        forall|a: int|
            #![trigger after.applications@[a]]
            0 <= a < after.applications@.len() ==> {
                &&& after.applications@[a].job_post@ == before.applications@[a].job_post@
                &&& after.applications@[a].applicant@ == before.applications@[a].applicant@
                &&& after.applications@[a].approved == before.applications@[a].approved
                &&& after.applications@[a].completed ==> after.applications@[a].approved
            },
    ensures
        after.wf(),
{
    assert forall|i: int, j: int|
        0 <= i < after.jobs@.len() && 0 <= j < after.jobs@.len()
            && #[trigger] after.jobs@[i].key@ == #[trigger] after.jobs@[j].key@ implies i == j by {
        assert(before.jobs@[i].key@ == before.jobs@[j].key@);
    }
    assert forall|a: int, b: int|
        0 <= a < after.applications@.len() && 0 <= b < after.applications@.len()
            && #[trigger] after.applications@[a].job_post@ == #[trigger] after.applications@[b].job_post@
            && after.applications@[a].applicant@ == after.applications@[b].applicant@ implies a
        == b by {
        assert(before.applications@[a].job_post@ == before.applications@[b].job_post@);
    }
    assert forall|a: int, b: int|
        0 <= a < after.applications@.len() && 0 <= b < after.applications@.len()
            && #[trigger] after.applications@[a].approved && #[trigger] after.applications@[b].approved
            && after.applications@[a].job_post@ == after.applications@[b].job_post@ implies a
        == b by {
        assert(before.applications@[a].job_post@ == before.applications@[b].job_post@);
        assert(before.applications@[a].approved && before.applications@[b].approved);
    }
    assert forall|a: int| 0 <= a < after.applications@.len()
        && #[trigger] after.applications@[a].approved implies after.job_filled(
        after.applications@[a].job_post@,
    ) by {
        assert(before.applications@[a].approved);
        assert(before.job_filled(before.applications@[a].job_post@));
        let j = choose|j: int|
            before.job_at(j, before.applications@[a].job_post@) && before.jobs@[j].post.is_filled;
        assert(after.jobs@[j].key@ == before.jobs@[j].key@);
        assert(after.job_at(j, after.applications@[a].job_post@));
    }
}

/// Balances of every identity but `who` survive a change that touches only
/// the wallet of `who` and may open one for it.
proof fn lemma_other_balances(before: Marketplace, after: Marketplace, who: Seq<u8>)
    requires
        before.wf(),
        after.wf(),
        after.wallets@.len() >= before.wallets@.len(),
        forall|c: int|
            0 <= c < before.wallets@.len() && before.wallets@[c].owner@ != who
                ==> #[trigger] after.wallets@[c] == before.wallets@[c],
        forall|c: int|
            0 <= c < before.wallets@.len() ==> #[trigger] after.wallets@[c].owner@
                == before.wallets@[c].owner@,
        forall|c: int|
            before.wallets@.len() <= c < after.wallets@.len() ==> #[trigger] after.wallets@[c].owner@
                == who,
    ensures
        forall|k: Seq<u8>| k != who ==> after.balance_of(k) == before.balance_of(k),
{
    assert forall|k: Seq<u8>| k != who implies after.balance_of(k) == before.balance_of(k) by {
        if before.has_wallet(k) {
            let c = choose|c: int| before.wallet_at(c, k);
            before.lemma_wallet(c, k);
            assert(after.wallets@[c] == before.wallets@[c]);
            assert(after.wallet_at(c, k));
            after.lemma_wallet(c, k);
        } else if after.has_wallet(k) {
            let c = choose|c: int| after.wallet_at(c, k);
            if c < before.wallets@.len() {
                assert(before.wallet_at(c, k));
            } else {
                assert(after.wallets@[c].owner@ == who);
            }
        }
    }
}

} // verus!
