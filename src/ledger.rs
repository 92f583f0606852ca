//! The ledger: the collection of client accounts and the rules that change it.
//!
//! Every operation takes the ledger as a whole (`&self` or `&mut self`), so a
//! caller that holds it behind one lock gets each operation as one atomic step.

use crate::amount::{
    amount_of, decimal_difference, decimal_sum, exact_at_common_scale, fits_at, max_scale, unit_step, Amount,
    MAX_MANTISSA,
};
use vstd::arithmetic::mul::lemma_mul_inequality;
use vstd::arithmetic::power::{lemma_pow_increases, lemma_pow_positive};
use crate::model::{Client, ClientInfo};
use uuid::Uuid;
use vstd::prelude::*;

verus! {

/// Why a ledger operation was refused. Each refusal leaves the ledger unchanged.
#[derive(Clone, Debug)]
pub enum LedgerError {
    /// An account with this document number exists already.
    DuplicateIdentity { document_number: String },
    /// No account has this id.
    NotFound { id: String },
    /// The account's balance is smaller than the debit.
    InsufficientFunds { id: String },
    /// The new balance could not be represented.
    Overflow { id: String },
    /// The id drawn for a new account is taken already.
    IdInUse { id: String },
}

/// The two ways a transaction changes a balance.
#[derive(Clone, Copy, Debug, PartialEq, Eq, Structural)]
pub enum Transaction {
    Credit,
    Debit,
}

/// The shared collection of accounts, in order of creation.
pub struct Ledger {
    clients: Vec<Client>,
}

/// Some account has the id.
pub open spec fn has_id(s: Seq<Client>, id: Seq<char>) -> bool {
    exists|i: int| 0 <= i < s.len() && (#[trigger] s[i]).id@ == id
}

/// The position of the account with the id (meaningful where `has_id`).
pub open spec fn index_of(s: Seq<Client>, id: Seq<char>) -> int {
    choose|i: int| 0 <= i < s.len() && (#[trigger] s[i]).id@ == id
}

/// Some account has the document number.
pub open spec fn has_document(s: Seq<Client>, doc: Seq<char>) -> bool {
    exists|i: int| 0 <= i < s.len() && (#[trigger] s[i]).info.document_number@ == doc
}

/// No two accounts share an id or a document number, and every balance is a
/// valid, non-negative amount.
pub open spec fn clients_wf(s: Seq<Client>) -> bool {
    &&& forall|i: int, j: int| 0 <= i < s.len() && 0 <= j < s.len() && i != j ==> (#[trigger] s[i]).id@ != (#[trigger] s[j]).id@
    &&& forall|i: int, j: int| 0 <= i < s.len() && 0 <= j < s.len() && i != j
        ==> (#[trigger] s[i]).info.document_number@ != (#[trigger] s[j]).info.document_number@
    &&& forall|i: int| 0 <= i < s.len() ==> (#[trigger] s[i]).balance.wf() && s[i].balance.units() >= 0
}

/// The account with another balance.
pub open spec fn with_balance(c: Client, b: Amount) -> Client {
    Client { id: c.id, balance: b, info: c.info }
}

/// The error names the id.
pub open spec fn not_found(r: Result<Amount, LedgerError>, id: Seq<char>) -> bool {
    r matches Err(LedgerError::NotFound { id: e }) && e@ == id
}

/// The error names the id.
pub open spec fn overflowed(r: Result<Amount, LedgerError>, id: Seq<char>) -> bool {
    r matches Err(LedgerError::Overflow { id: e }) && e@ == id
}

/// Store a decimal result as the balance at `i`, where it is a non-negative
/// amount; otherwise refuse with `Overflow`.
pub open spec fn stored(
    old: Seq<Client>,
    i: int,
    id: Seq<char>,
    result: Option<Amount>,
    r: Result<Amount, LedgerError>,
    new: Seq<Client>,
) -> bool {
    match result {
        Some(x) => if x.units() >= 0 {
            r == Ok::<Amount, LedgerError>(x) && x.wf() && new == old.update(i, with_balance(old[i], x))
        } else {
            overflowed(r, id) && new == old
        },
        None => overflowed(r, id) && new == old,
    }
}

/// What a credit of `amount` on `id` does to the accounts `old`.
pub open spec fn credited(
    old: Seq<Client>,
    id: Seq<char>,
    amount: Amount,
    r: Result<Amount, LedgerError>,
    new: Seq<Client>,
) -> bool {
    if !has_id(old, id) {
        not_found(r, id) && new == old
    } else {
        let i = index_of(old, id);
        let b = old[i].balance;
        &&& stored(old, i, id, amount_of(decimal_sum(b.mantissa, b.scale, amount.mantissa, amount.scale)), r, new)
        &&& exact_at_common_scale(b, amount, b.units() + amount.units()) ==> (r matches Ok(x) && x.units() == b.units() + amount.units())
    }
}

/// What a debit of `amount` on `id` does to the accounts `old`.
pub open spec fn debited(
    old: Seq<Client>,
    id: Seq<char>,
    amount: Amount,
    r: Result<Amount, LedgerError>,
    new: Seq<Client>,
) -> bool {
    if !has_id(old, id) {
        not_found(r, id) && new == old
    } else {
        let i = index_of(old, id);
        let b = old[i].balance;
        if b.units() < amount.units() {
            &&& r matches Err(LedgerError::InsufficientFunds { id: e }) && e@ == id
            &&& new == old
        } else {
            &&& stored(old, i, id, amount_of(decimal_difference(b.mantissa, b.scale, amount.mantissa, amount.scale)), r, new)
            &&& exact_at_common_scale(b, amount, b.units() - amount.units()) ==> (r matches Ok(x) && x.units() == b.units() - amount.units())
        }
    }
}

/// What creating an account for `info` under the id `id` does to `old`.
pub open spec fn created(
    old: Seq<Client>,
    info: ClientInfo,
    id: Seq<char>,
    r: Result<String, LedgerError>,
    new: Seq<Client>,
) -> bool {
    if has_document(old, info.document_number@) {
        &&& r matches Err(LedgerError::DuplicateIdentity { document_number: d }) && d@ == info.document_number@
        &&& new == old
    } else if has_id(old, id) {
        &&& r matches Err(LedgerError::IdInUse { id: e }) && e@ == id
        &&& new == old
    } else {
        &&& r matches Ok(s) && s@ == id
        &&& new.len() == old.len() + 1
        &&& new.take(old.len() as int) == old
        &&& new.last().id@ == id
        &&& new.last().info == info
        &&& new.last().balance.wf()
        &&& new.last().balance.units() == 0
    }
}

/// The balances of a list of (id, balance) records.
pub open spec fn record_balances(records: Seq<(String, Amount)>) -> Seq<Amount> {
    records.map_values(|p: (String, Amount)| p.1)
}

/// The balances of the accounts.
pub open spec fn client_balances(s: Seq<Client>) -> Seq<Amount> {
    s.map_values(|c: Client| c.balance)
}

/// The sum of the amounts' values, in smallest units.
pub open spec fn total_units(s: Seq<Amount>) -> int
    decreases s.len(),
{
    if s.len() == 0 {
        0
    } else {
        total_units(s.drop_last()) + s.last().units()
    }
}

/// `records` holds each account's id and balance, in the ledger's order.
pub open spec fn captures(s: Seq<Client>, records: Seq<(String, Amount)>) -> bool {
    &&& records.len() == s.len()
    &&& forall|i: int| 0 <= i < s.len() ==> (#[trigger] records[i]).0@ == s[i].id@ && records[i].1 == s[i].balance
}

/// `new` is `old` with every balance set to zero.
pub open spec fn reset_from(old: Seq<Client>, new: Seq<Client>) -> bool {
    &&& new.len() == old.len()
    &&& forall|i: int| 0 <= i < old.len() ==> #[trigger] new[i] == with_balance(old[i], Amount { mantissa: 0, scale: 0 })
}

/// Relies on `Uuid::new_v4` (random) and `Uuid`'s `Display`, which writes the
/// 36 characters of the hyphenated form.
#[verifier::external_body]
fn new_random_id() -> (r: String)
    ensures
        r@.len() == 36,
{
    Uuid::new_v4().to_string()
}

/// A balance update keeps the accounts well formed.
proof fn lemma_update_balance_wf(s: Seq<Client>, i: int, x: Amount)
    requires
        clients_wf(s),
        0 <= i < s.len(),
        x.wf(),
        x.units() >= 0,
    ensures
        clients_wf(s.update(i, with_balance(s[i], x))),
{
    let t = s.update(i, with_balance(s[i], x));
    assert forall|a: int, b: int| 0 <= a < t.len() && 0 <= b < t.len() && a != b
        implies (#[trigger] t[a]).id@ != (#[trigger] t[b]).id@ by {
        assert(s[a].id@ != s[b].id@);
    }
    assert forall|a: int, b: int| 0 <= a < t.len() && 0 <= b < t.len() && a != b
        implies (#[trigger] t[a]).info.document_number@ != (#[trigger] t[b]).info.document_number@ by {
        assert(s[a].info.document_number@ != s[b].info.document_number@);
    }
}

/// A creation keeps the accounts well formed.
proof fn lemma_created_wf(s: Seq<Client>, info: ClientInfo, id: Seq<char>, r: Result<String, LedgerError>, t: Seq<Client>)
    requires
        clients_wf(s),
        created(s, info, id, r, t),
    ensures
        clients_wf(t),
{
    if !has_document(s, info.document_number@) && !has_id(s, id) {
        let n = s.len() as int;
        assert forall|a: int| 0 <= a < n implies #[trigger] t[a] == s[a] by {
            assert(t.take(n)[a] == s[a]);
        }
        assert forall|a: int| 0 <= a < n implies (#[trigger] s[a]).id@ != id by {
            if s[a].id@ == id {
                assert(has_id(s, id));
            }
        }
        assert forall|a: int| 0 <= a < n implies (#[trigger] s[a]).info.document_number@ != info.document_number@ by {
            if s[a].info.document_number@ == info.document_number@ {
                assert(has_document(s, info.document_number@));
            }
        }
        assert(t[n] == t.last());
        assert forall|a: int, b: int| 0 <= a < t.len() && 0 <= b < t.len() && a != b
            implies (#[trigger] t[a]).id@ != (#[trigger] t[b]).id@ by {
            if a < n && b < n {
                assert(s[a].id@ != s[b].id@);
            }
        }
        assert forall|a: int, b: int| 0 <= a < t.len() && 0 <= b < t.len() && a != b
            implies (#[trigger] t[a]).info.document_number@ != (#[trigger] t[b]).info.document_number@ by {
            if a < n && b < n {
                assert(s[a].info.document_number@ != s[b].info.document_number@);
            }
        }
    }
}

/// Creations with pairwise distinct document numbers, starting from an empty
/// ledger, all succeed: the ledger then holds one account per document number,
/// in the order of the calls. The ids drawn are taken to be pairwise distinct.
pub proof fn lemma_distinct_creations_all_land(
    states: Seq<Seq<Client>>,
    infos: Seq<ClientInfo>,
    ids: Seq<Seq<char>>,
    results: Seq<Result<String, LedgerError>>,
)
    requires
        states.len() == infos.len() + 1,
        ids.len() == infos.len(),
        results.len() == infos.len(),
        states[0].len() == 0,
        forall|k: int| 0 <= k < infos.len() ==> created(#[trigger] states[k], infos[k], ids[k], results[k], states[k + 1]),
        forall|j: int, k: int| 0 <= j < k < infos.len() ==> (#[trigger] infos[j]).document_number@ != (#[trigger] infos[k]).document_number@,
        forall|j: int, k: int| 0 <= j < k < infos.len() ==> #[trigger] ids[j] != #[trigger] ids[k],
    ensures
        states.last().len() == infos.len(),
        forall|k: int| 0 <= k < infos.len() ==> (#[trigger] results[k]) is Ok,
        forall|k: int| 0 <= k < infos.len() ==> (#[trigger] states.last()[k]).info == infos[k],
{
    lemma_creations_prefix(states, infos, ids, results, infos.len() as int);
    assert(states.last() == states[infos.len() as int]);
}

proof fn lemma_creations_prefix(
    states: Seq<Seq<Client>>,
    infos: Seq<ClientInfo>,
    ids: Seq<Seq<char>>,
    results: Seq<Result<String, LedgerError>>,
    n: int,
)
    requires
        0 <= n <= infos.len(),
        states.len() == infos.len() + 1,
        ids.len() == infos.len(),
        results.len() == infos.len(),
        states[0].len() == 0,
        forall|k: int| 0 <= k < infos.len() ==> created(#[trigger] states[k], infos[k], ids[k], results[k], states[k + 1]),
        forall|j: int, k: int| 0 <= j < k < infos.len() ==> (#[trigger] infos[j]).document_number@ != (#[trigger] infos[k]).document_number@,
        forall|j: int, k: int| 0 <= j < k < infos.len() ==> #[trigger] ids[j] != #[trigger] ids[k],
    ensures
        states[n].len() == n,
        forall|k: int| 0 <= k < n ==> (#[trigger] results[k]) is Ok,
        forall|k: int| 0 <= k < n ==> (#[trigger] states[n][k]).info == infos[k] && states[n][k].id@ == ids[k],
    decreases n,
{
    if n > 0 {
        let m = n - 1;
        lemma_creations_prefix(states, infos, ids, results, m);
        let s = states[m];
        assert(created(s, infos[m], ids[m], results[m], states[n]));
        assert(!has_document(s, infos[m].document_number@)) by {
            assert forall|i: int| 0 <= i < s.len() implies (#[trigger] s[i]).info.document_number@ != infos[m].document_number@ by {
                assert(infos[i].document_number@ != infos[m].document_number@);
            }
        }
        assert(!has_id(s, ids[m])) by {
            assert forall|i: int| 0 <= i < s.len() implies (#[trigger] s[i]).id@ != ids[m] by {
                assert(ids[i] != ids[m]);
            }
        }
        let t = states[n];
        assert forall|k: int| 0 <= k < n implies (#[trigger] t[k]).info == infos[k] && t[k].id@ == ids[k] by {
            if k < m {
                assert(t.take(m)[k] == s[k]);
            } else {
                assert(t[k] == t.last());
            }
        }
    }
}

/// Creating a second account with a document number that the first creation
/// used is refused with `DuplicateIdentity` and changes nothing, and exactly one
/// account holds that document number. The first creation is taken not to have
/// met a taken id.
pub proof fn lemma_duplicate_document_refused(
    s0: Seq<Client>,
    first: ClientInfo,
    first_id: Seq<char>,
    r1: Result<String, LedgerError>,
    s1: Seq<Client>,
    second: ClientInfo,
    second_id: Seq<char>,
    r2: Result<String, LedgerError>,
    s2: Seq<Client>,
)
    requires
        clients_wf(s0),
        first.document_number@ == second.document_number@,
        created(s0, first, first_id, r1, s1),
        created(s1, second, second_id, r2, s2),
        !(r1 matches Err(LedgerError::IdInUse { .. })),
    ensures
        r2 matches Err(LedgerError::DuplicateIdentity { document_number: d }) && d@ == second.document_number@,
        s2 == s1,
        has_document(s2, second.document_number@),
        forall|i: int, j: int| 0 <= i < s2.len() && 0 <= j < s2.len()
            && (#[trigger] s2[i]).info.document_number@ == second.document_number@
            && (#[trigger] s2[j]).info.document_number@ == second.document_number@ ==> i == j,
{
    lemma_created_wf(s0, first, first_id, r1, s1);
    if !has_document(s0, first.document_number@) {
        let n = s0.len() as int;
        assert(s1[n] == s1.last());
        assert(s1[n].info.document_number@ == first.document_number@);
    }
    assert(has_document(s1, second.document_number@));
}

/// Every valid amount fits at its own scale.
proof fn lemma_fits_own_scale(x: Amount)
    requires
        x.wf(),
        x.units() >= 0,
    ensures
        fits_at(x.units(), x.scale as nat),
{
    let step = unit_step(x.scale as nat);
    lemma_pow_positive(10, (28 - x.scale) as nat);
    lemma_mul_inequality(x.mantissa as int, MAX_MANTISSA as int, step);
}

/// Fitting at a scale implies fitting at every smaller scale.
proof fn lemma_fits_smaller_scale(u: int, s: nat, t: nat)
    requires
        t <= s <= 28,
        u >= 0,
        fits_at(u, s),
    ensures
        fits_at(u, t),
{
    lemma_pow_increases(10, (28 - s) as nat, (28 - t) as nat);
    lemma_pow_positive(10, (28 - t) as nat);
    assert(MAX_MANTISSA * unit_step(s) <= MAX_MANTISSA * unit_step(t)) by (nonlinear_arith)
        requires
            unit_step(s) <= unit_step(t),
    ;
    assert(0 <= MAX_MANTISSA * unit_step(t)) by (nonlinear_arith)
        requires
            unit_step(t) > 0,
    ;
}

/// A credit of `amount` followed by a debit of the same `amount` on the same
/// account restores its balance exactly, and leaves every other account as it
/// was. The credit is taken to be exact: balance, amount and sum fit at the
/// larger of their scales.
pub proof fn lemma_credit_then_debit_restores(
    s0: Seq<Client>,
    id: Seq<char>,
    amount: Amount,
    r1: Result<Amount, LedgerError>,
    s1: Seq<Client>,
    r2: Result<Amount, LedgerError>,
    s2: Seq<Client>,
)
    requires
        clients_wf(s0),
        has_id(s0, id),
        amount.wf(),
        amount.units() >= 0,
        credited(s0, id, amount, r1, s1),
        debited(s1, id, amount, r2, s2),
        exact_at_common_scale(
            s0[index_of(s0, id)].balance,
            amount,
            s0[index_of(s0, id)].balance.units() + amount.units(),
        ),
    ensures
        r1 is Ok,
        r2 matches Ok(b) && b.units() == s0[index_of(s0, id)].balance.units(),
        s2.len() == s0.len(),
        has_id(s2, id),
        index_of(s2, id) == index_of(s0, id),
        s2[index_of(s0, id)].balance.units() == s0[index_of(s0, id)].balance.units(),
        forall|k: int| 0 <= k < s0.len() && k != index_of(s0, id) ==> #[trigger] s2[k] == s0[k],
{
    let i = index_of(s0, id);
    let b = s0[i].balance;
    assert(s0[i].id@ == id);
    let x = r1->Ok_0;
    assert(x.units() == b.units() + amount.units());
    assert(s1 == s0.update(i, with_balance(s0[i], x)));
    lemma_update_balance_wf(s0, i, x);
    lemma_index_of(s1, id, i);
    let s = max_scale(b, amount);
    let t = max_scale(x, amount);
    lemma_fits_own_scale(x);
    if t != x.scale {
        lemma_fits_smaller_scale(x.units(), s, t);
    }
    lemma_fits_smaller_scale(x.units(), t, t);
    assert(fits_at(amount.units(), t));
    assert(fits_at(x.units() - amount.units(), t));
    assert(exact_at_common_scale(x, amount, x.units() - amount.units()));
    let y = r2->Ok_0;
    assert(s2 == s1.update(i, with_balance(s1[i], y)));
    lemma_update_balance_wf(s1, i, y);
    lemma_index_of(s2, id, i);
}

/// An amount with a non-negative mantissa has a non-negative value.
proof fn lemma_non_negative_units(x: Amount)
    requires
        x.scale <= 28,
        x.mantissa >= 0,
    ensures
        x.units() >= 0,
{
    lemma_pow_positive(10, (28 - x.scale) as nat);
    assert(x.mantissa * unit_step(x.scale as nat) >= 0) by (nonlinear_arith)
        requires
            x.mantissa >= 0,
            unit_step(x.scale as nat) > 0,
    ;
}

proof fn lemma_total_equal_zero(s: Seq<Amount>)
    requires
        forall|i: int| 0 <= i < s.len() ==> (#[trigger] s[i]).units() == 0,
    ensures
        total_units(s) == 0,
    decreases s.len(),
{
    if s.len() > 0 {
        lemma_total_equal_zero(s.drop_last());
    }
}

/// A snapshot-and-reset returns records whose balances sum to the ledger's
/// total before the call, and leaves every balance at zero.
pub proof fn lemma_snapshot_keeps_total(old: Seq<Client>, records: Seq<(String, Amount)>, new: Seq<Client>)
    requires
        captures(old, records),
        reset_from(old, new),
    ensures
        total_units(record_balances(records)) == total_units(client_balances(old)),
        forall|i: int| 0 <= i < new.len() ==> (#[trigger] new[i]).balance.units() == 0,
        total_units(client_balances(new)) == 0,
{
    assert(record_balances(records) =~= client_balances(old));
    assert forall|i: int| 0 <= i < new.len() implies (#[trigger] new[i]).balance.units() == 0 by {
        assert(new[i].balance == Amount { mantissa: 0, scale: 0 });
        assert(new[i].balance.units() == 0 * unit_step(0));
    }
    assert forall|i: int| 0 <= i < new.len() implies (#[trigger] client_balances(new)[i]).units() == 0 by {
        assert(client_balances(new)[i] == new[i].balance);
    }
    lemma_total_equal_zero(client_balances(new));
}

impl View for Ledger {
    type V = Seq<Client>;

    closed spec fn view(&self) -> Seq<Client> {
        self.clients@
    }
}

proof fn lemma_index_of(s: Seq<Client>, id: Seq<char>, i: int)
    requires
        clients_wf(s),
        0 <= i < s.len(),
        s[i].id@ == id,
    ensures
        has_id(s, id),
        index_of(s, id) == i,
{
    assert(has_id(s, id));
    let j = index_of(s, id);
    assert(s[j].id@ == id);
}

impl Ledger {
    /// The ledger's invariant.
    pub open spec fn wf(&self) -> bool {
        clients_wf(self@)
    }

    /// An empty ledger.
    pub fn new() -> (r: Ledger)
        ensures
            r.wf(),
            r@ == Seq::<Client>::empty(),
    {
        Ledger { clients: Vec::new() }
    }

    /// The number of accounts.
    pub fn len(&self) -> (r: usize)
        ensures
            r == self@.len(),
    {
        self.clients.len()
    }

    /// The position of the account with the id, if there is one.
    fn position_of(&self, id: &String) -> (r: Option<usize>)
        requires
            self.wf(),
        ensures
            r is None <==> !has_id(self@, id@),
            r matches Some(i) ==> i < self@.len() && index_of(self@, id@) == i && self@[i as int].id@ == id@,
    {
        let mut i: usize = 0;
        while i < self.clients.len()
            invariant
                i <= self.clients@.len(),
                self.wf(),
                forall|j: int| 0 <= j < i ==> (#[trigger] self.clients@[j]).id@ != id@,
            decreases self.clients@.len() - i,
        {
            if self.clients[i].id == *id {
                proof {
                    lemma_index_of(self@, id@, i as int);
                }
                return Some(i);
            }
            i = i + 1;
        }
        None
    }

    /// Whether some account has the document number.
    pub fn has_document(&self, document_number: &String) -> (r: bool)
        ensures
            r == has_document(self@, document_number@),
    {
        let mut i: usize = 0;
        while i < self.clients.len()
            invariant
                i <= self.clients@.len(),
                forall|j: int| 0 <= j < i ==> (#[trigger] self.clients@[j]).info.document_number@ != document_number@,
            decreases self.clients@.len() - i,
        {
            if self.clients[i].info.document_number == *document_number {
                return true;
            }
            i = i + 1;
        }
        false
    }

    /// Creates an account for `info` under the id `id`, with a zero balance.
    /// Refused where the document number is taken, or the id is.
    pub fn create_client(&mut self, info: ClientInfo, id: String) -> (r: Result<String, LedgerError>)
        requires
            old(self).wf(),
        ensures
            final(self).wf(),
            created(old(self)@, info, id@, r, final(self)@),
    {
        if self.has_document(&info.document_number) {
            return Err(LedgerError::DuplicateIdentity { document_number: info.document_number });
        }
        match self.position_of(&id) {
            Some(_) => Err(LedgerError::IdInUse { id }),
            None => {
                let ghost before = self@;
                let answer = id.clone();
                self.clients.push(Client { id, balance: Amount::zero(), info });
                proof {
                    assert(self@.take(before.len() as int) =~= before);
                    assert forall|i: int| 0 <= i < before.len() implies #[trigger] self@[i] == before[i] by {}
                    assert forall|i: int| 0 <= i < before.len() implies (#[trigger] before[i]).id@ != id@ by {
                        if before[i].id@ == id@ {
                            assert(has_id(before, id@));
                        }
                    }
                    assert forall|i: int| 0 <= i < before.len() implies (#[trigger] before[i]).info.document_number@
                        != info.document_number@ by {
                        if before[i].info.document_number@ == info.document_number@ {
                            assert(has_document(before, info.document_number@));
                        }
                    }
                }
                Ok(answer)
            }
        }
    }
    /// Creates an account for `info` under a freshly drawn random id.
    pub fn create_client_with_new_id(&mut self, info: ClientInfo) -> (r: Result<String, LedgerError>)
        requires
            old(self).wf(),
        ensures
            final(self).wf(),
            exists|id: Seq<char>| id.len() == 36 && created(old(self)@, info, id, r, final(self)@),
    {
        let id = new_random_id();
        let ghost drawn = id@;
        let r = self.create_client(info, id);
        assert(drawn.len() == 36 && created(old(self)@, info, drawn, r, self@));
        r
    }

    /// The account with the id.
    pub fn find_client(&self, id: &String) -> (r: Result<&Client, LedgerError>)
        requires
            self.wf(),
        ensures
            has_id(self@, id@) <==> r is Ok,
            r matches Ok(c) ==> *c == self@[index_of(self@, id@)],
            r matches Err(e) ==> (e matches LedgerError::NotFound { id: x } && x@ == id@),
    {
        match self.position_of(id) {
            Some(i) => Ok(&self.clients[i]),
            None => Err(LedgerError::NotFound { id: id.clone() }),
        }
    }

    /// Stores `result` as the balance at `i`, where it is a non-negative amount.
    fn store(&mut self, i: usize, id: &String, result: Option<Amount>) -> (r: Result<Amount, LedgerError>)
        requires
            old(self).wf(),
            i < old(self)@.len(),
            old(self)@[i as int].id@ == id@,
            result matches Some(x) ==> x.wf(),
        ensures
            final(self).wf(),
            stored(old(self)@, i as int, id@, result, r, final(self)@),
    {
        match result {
            Some(x) => {
                let zero = Amount::zero();
                if x.is_less_than(&zero) {
                    Err(LedgerError::Overflow { id: id.clone() })
                } else {
                    let ghost before = self@;
                    self.clients[i].balance = x;
                    proof {
                        assert(self@ =~= before.update(i as int, with_balance(before[i as int], x)));
                    }
                    Ok(x)
                }
            }
            None => Err(LedgerError::Overflow { id: id.clone() }),
        }
    }

    /// Applies a credit or a debit of `amount` to the account `id` and returns
    /// the new balance. A debit larger than the balance is refused.
    pub fn apply(&mut self, id: &String, amount: Amount, transaction: Transaction) -> (r: Result<Amount, LedgerError>)
        requires
            old(self).wf(),
            amount.wf(),
            amount.mantissa >= 0,
        ensures
            final(self).wf(),
            transaction == Transaction::Credit ==> credited(old(self)@, id@, amount, r, final(self)@),
            transaction == Transaction::Debit ==> debited(old(self)@, id@, amount, r, final(self)@),
    {
        proof {
            lemma_non_negative_units(amount);
        }
        match self.position_of(id) {
            None => Err(LedgerError::NotFound { id: id.clone() }),
            Some(i) => {
                let balance = self.clients[i].balance;
                match transaction {
                    Transaction::Credit => {
                        let sum = balance.checked_add(&amount);
                        self.store(i, id, sum)
                    }
                    Transaction::Debit => {
                        if balance.is_less_than(&amount) {
                            Err(LedgerError::InsufficientFunds { id: id.clone() })
                        } else {
                            let difference = balance.checked_sub(&amount);
                            self.store(i, id, difference)
                        }
                    }
                }
            }
        }
    }

    /// Adds `amount` to the balance of the account `id`; returns the new balance.
    pub fn credit(&mut self, id: &String, amount: Amount) -> (r: Result<Amount, LedgerError>)
        requires
            old(self).wf(),
            amount.wf(),
            amount.mantissa >= 0,
        ensures
            final(self).wf(),
            credited(old(self)@, id@, amount, r, final(self)@),
    {
        self.apply(id, amount, Transaction::Credit)
    }

    /// Takes `amount` from the balance of the account `id`; returns the new
    /// balance. Refused, with no change, where the balance is smaller.
    pub fn debit(&mut self, id: &String, amount: Amount) -> (r: Result<Amount, LedgerError>)
        requires
            old(self).wf(),
            amount.wf(),
            amount.mantissa >= 0,
        ensures
            final(self).wf(),
            debited(old(self)@, id@, amount, r, final(self)@),
    {
        self.apply(id, amount, Transaction::Debit)
    }

    /// The id and balance of every account, in the ledger's order.
    pub fn snapshot(&self) -> (r: Vec<(String, Amount)>)
        ensures
            captures(self@, r@),
    {
        let mut records: Vec<(String, Amount)> = Vec::new();
        let mut i: usize = 0;
        while i < self.clients.len()
            invariant
                i <= self.clients@.len(),
                records@.len() == i,
                forall|j: int| 0 <= j < i ==> (#[trigger] records@[j]).0@ == self@[j].id@ && records@[j].1 == self@[j].balance,
            decreases self.clients@.len() - i,
        {
            records.push((self.clients[i].id.clone(), self.clients[i].balance));
            i = i + 1;
        }
        records
    }

    /// Sets every balance to zero.
    pub fn reset_balances(&mut self)
        requires
            old(self).wf(),
        ensures
            final(self).wf(),
            reset_from(old(self)@, final(self)@),
    {
        let ghost before = self@;
        let mut i: usize = 0;
        while i < self.clients.len()
            invariant
                i <= self.clients@.len(),
                self.clients@.len() == before.len(),
                forall|j: int| 0 <= j < i ==> #[trigger] self.clients@[j] == with_balance(before[j], Amount { mantissa: 0, scale: 0 }),
                forall|j: int| i <= j < before.len() ==> #[trigger] self.clients@[j] == before[j],
                clients_wf(before),
            decreases self.clients@.len() - i,
        {
            self.clients[i].balance = Amount::zero();
            i = i + 1;
        }
        proof {
            assert forall|a: int| 0 <= a < self@.len() implies (#[trigger] self@[a]).balance.wf()
                && self@[a].balance.units() >= 0 by {
                assert(self@[a].balance == Amount { mantissa: 0, scale: 0 });
                assert(self@[a].balance.units() == 0 * vstd::arithmetic::power::pow(10, 28));
            }
            assert forall|a: int, b: int| 0 <= a < self@.len() && 0 <= b < self@.len() && a != b
                implies (#[trigger] self@[a]).id@ != (#[trigger] self@[b]).id@ by {
                assert(before[a].id@ != before[b].id@);
            }
            assert forall|a: int, b: int| 0 <= a < self@.len() && 0 <= b < self@.len() && a != b
                implies (#[trigger] self@[a]).info.document_number@ != (#[trigger] self@[b]).info.document_number@ by {
                assert(before[a].info.document_number@ != before[b].info.document_number@);
            }
        }
    }

    /// Captures the id and balance of every account, then sets every balance
    /// to zero, in one step.
    pub fn snapshot_and_reset(&mut self) -> (r: Vec<(String, Amount)>)
        requires
            old(self).wf(),
        ensures
            final(self).wf(),
            captures(old(self)@, r@),
            reset_from(old(self)@, final(self)@),
    {
        let records = self.snapshot();
        self.reset_balances();
        records
    }
}

} // verus!
