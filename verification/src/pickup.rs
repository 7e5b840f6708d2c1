//! Pickups and their aging-out.

use crate::geometry::Position;
use crate::timer::total_time;
use vstd::prelude::*;

verus! {

/// What a [`Pickup`] stands for.
pub struct PickupModel {
    /// The host's identifier of the entity.
    pub id: u64,
    /// Where the pickup was created. It never moves.
    pub position: Position,
    /// Time lived so far, capped at the lifetime.
    pub elapsed: nat,
    /// Time after which the pickup ages out.
    pub lifetime: nat,
    /// The pickup has aged out and its removal has been asked for.
    pub expired: bool,
}

impl PickupModel {
    /// The time lived never passes the lifetime, and an expired pickup has
    /// lived all of it.
    pub open spec fn wf(self) -> bool {
        &&& self.elapsed <= self.lifetime
        &&& self.expired ==> self.elapsed == self.lifetime
    }

    /// Aging by `dt` completes the lifetime of a pickup that is still alive.
    pub open spec fn expires_on(self, dt: nat) -> bool {
        !self.expired && self.elapsed + dt >= self.lifetime
    }

    /// The pickup after aging by `dt`. An expired pickup stays as it is.
    pub open spec fn advance(self, dt: nat) -> PickupModel {
        if self.expired {
            self
        } else if self.elapsed + dt >= self.lifetime {
            PickupModel { elapsed: self.lifetime, expired: true, ..self }
        } else {
            PickupModel { elapsed: self.elapsed + dt, ..self }
        }
    }

    /// The pickup after aging by each of `dts`, in order.
    pub open spec fn after(self, dts: Seq<u64>) -> PickupModel
        decreases dts.len(),
    {
        if dts.len() == 0 {
            self
        } else {
            self.after(dts.drop_last()).advance(dts.last() as nat)
        }
    }

    /// Aging call number `k` of the run `dts` is the one on which the pickup
    /// expires.
    pub open spec fn expires_at(self, dts: Seq<u64>, k: int) -> bool {
        self.after(dts.take(k)).expires_on(dts[k] as nat)
    }
}

/// A timed entity: created alive, it ages with every call of [`age`], expires
/// when its lifetime is complete, and is then the host's to remove.
#[derive(Clone, Copy, Debug)]
pub struct Pickup {
    id: u64,
    position: Position,
    elapsed: u64,
    lifetime: u64,
    expired: bool,
}

impl View for Pickup {
    type V = PickupModel;

    closed spec fn view(&self) -> PickupModel {
        PickupModel {
            id: self.id,
            position: self.position,
            elapsed: self.elapsed as nat,
            lifetime: self.lifetime as nat,
            expired: self.expired,
        }
    }
}

impl Pickup {
    /// A pickup that has just been created at `position`.
    pub fn new(id: u64, position: Position, lifetime: u64) -> (pickup: Pickup)
        ensures
            pickup@ == (PickupModel {
                id,
                position,
                elapsed: 0,
                lifetime: lifetime as nat,
                expired: false,
            }),
            pickup@.wf(),
    {
        Pickup { id, position, elapsed: 0, lifetime, expired: false }
    }

    /// The host's identifier of the entity.
    pub fn id(&self) -> (id: u64)
        ensures
            id == self@.id,
    {
        self.id
    }

    /// Where the pickup was created.
    pub fn position(&self) -> (position: Position)
        ensures
            position == self@.position,
    {
        self.position
    }

    /// Time lived so far.
    pub fn elapsed(&self) -> (elapsed: u64)
        ensures
            elapsed == self@.elapsed,
    {
        self.elapsed
    }

    /// Time after which the pickup ages out.
    pub fn lifetime(&self) -> (lifetime: u64)
        ensures
            lifetime == self@.lifetime,
    {
        self.lifetime
    }

    /// Whether the pickup has aged out.
    pub fn is_expired(&self) -> (expired: bool)
        ensures
            expired == self@.expired,
    {
        self.expired
    }

    /// Ages the pickup by `dt` and says whether this call is the one on which
    /// it expires.
    pub fn advance(&mut self, dt: u64) -> (expires: bool)
        requires
            old(self)@.wf(),
        ensures
            expires == old(self)@.expires_on(dt as nat),
            final(self)@ == old(self)@.advance(dt as nat),
            final(self)@.wf(),
    {
        if self.expired {
            return false;
        }
        let lived: u64 = self.elapsed.saturating_add(dt);
        if lived >= self.lifetime {
            self.elapsed = self.lifetime;
            self.expired = true;
            true
        } else {
            self.elapsed = lived;
            false
        }
    }
}

/// The models of a sequence of pickups.
pub open spec fn models(pickups: Seq<Pickup>) -> Seq<PickupModel> {
    Seq::new(pickups.len(), |i: int| pickups[i]@)
}

/// Every pickup aged by `dt`.
pub open spec fn advance_all(pickups: Seq<PickupModel>, dt: nat) -> Seq<PickupModel> {
    Seq::new(pickups.len(), |i: int| pickups[i].advance(dt))
}

/// The identifiers of the pickups that expire on aging by `dt`, in the order
/// in which the pickups stand.
pub open spec fn expiring_ids(pickups: Seq<PickupModel>, dt: nat) -> Seq<u64>
    decreases pickups.len(),
{
    if pickups.len() == 0 {
        Seq::empty()
    } else {
        let front = expiring_ids(pickups.drop_last(), dt);
        if pickups.last().expires_on(dt) {
            front.push(pickups.last().id)
        } else {
            front
        }
    }
}

/// Ages every pickup by `dt`, in place, and returns the identifiers of those
/// that expire on this call. Removing them is left to the host. A pickup that
/// expired on an earlier call and is still in `pickups` is not named again.
pub fn age(dt: u64, pickups: &mut Vec<Pickup>) -> (removed: Vec<u64>)
    requires
        forall|i: int| 0 <= i < old(pickups)@.len() ==> (#[trigger] old(pickups)@[i])@.wf(),
    ensures
        final(pickups)@.len() == old(pickups)@.len(),
        forall|i: int|
            0 <= i < final(pickups)@.len() ==> (#[trigger] final(pickups)@[i])@
                == old(pickups)@[i]@.advance(dt as nat),
        forall|i: int| 0 <= i < final(pickups)@.len() ==> (#[trigger] final(pickups)@[i])@.wf(),
        models(final(pickups)@) == advance_all(models(old(pickups)@), dt as nat),
        removed@ == expiring_ids(models(old(pickups)@), dt as nat),
{
    let ghost before = models(pickups@);
    let n: usize = pickups.len();
    let mut removed: Vec<u64> = Vec::new();
    let mut i: usize = 0;
    while i < n
        invariant
            i <= n,
            pickups@.len() == n,
            before.len() == n,
            before == models(old(pickups)@),
            forall|j: int| 0 <= j < i ==> (#[trigger] pickups@[j])@ == before[j].advance(dt as nat),
            forall|j: int| i <= j < n ==> (#[trigger] pickups@[j])@ == before[j],
            forall|j: int| 0 <= j < n ==> (#[trigger] pickups@[j])@.wf(),
            removed@ == expiring_ids(before.take(i as int), dt as nat),
        decreases n - i,
    {
        let mut pickup: Pickup = pickups[i];
        let expires: bool = pickup.advance(dt);
        if expires {
            removed.push(pickup.id());
        }
        pickups.set(i, pickup);
        proof {
            assert(before.take(i + 1).drop_last() =~= before.take(i as int));
        }
        i += 1;
    }
    proof {
        assert(before.take(n as int) =~= before);
        assert(models(pickups@) =~= advance_all(before, dt as nat));
    }
    removed
}

/// No two pickups share an identifier.
pub open spec fn distinct_ids(pickups: Seq<PickupModel>) -> bool {
    forall|i: int, j: int|
        0 <= i < j < pickups.len() ==> (#[trigger] pickups[i]).id != (#[trigger] pickups[j]).id
}

/// Every pickup after aging by each of `dts`, in order.
pub open spec fn population_after(pickups: Seq<PickupModel>, dts: Seq<u64>) -> Seq<PickupModel> {
    Seq::new(pickups.len(), |i: int| pickups[i].after(dts))
}

/// The removal list of aging call number `k` of the run `dts`, where no
/// pickup joins or leaves during the run.
pub open spec fn removal_list(pickups: Seq<PickupModel>, dts: Seq<u64>, k: int) -> Seq<u64> {
    expiring_ids(population_after(pickups, dts.take(k)), dts[k] as nat)
}

/// Aging changes neither identifier, position nor lifetime, keeps a
/// well-formed pickup well-formed, and leaves an expired pickup as it is.
pub proof fn lemma_after_keeps_identity(pickup: PickupModel, dts: Seq<u64>)
    ensures
        pickup.after(dts).id == pickup.id,
        pickup.after(dts).position == pickup.position,
        pickup.after(dts).lifetime == pickup.lifetime,
        pickup.wf() ==> pickup.after(dts).wf(),
        pickup.expired ==> pickup.after(dts) == pickup,
    decreases dts.len(),
{
    if dts.len() > 0 {
        lemma_after_keeps_identity(pickup, dts.drop_last());
    }
}

/// A run of aging calls is the same as its calls made one after the other:
/// the population after `k + 1` calls is the population after `k` calls, aged
/// by the elapsed time of call `k`.
pub proof fn lemma_population_step(pickups: Seq<PickupModel>, dts: Seq<u64>, k: int)
    requires
        0 <= k < dts.len(),
    ensures
        population_after(pickups, dts.take(k + 1)) == advance_all(
            population_after(pickups, dts.take(k)),
            dts[k] as nat,
        ),
{
    assert(dts.take(k + 1).drop_last() =~= dts.take(k));
    assert(population_after(pickups, dts.take(k + 1)) =~= advance_all(
        population_after(pickups, dts.take(k)),
        dts[k] as nat,
    ));
}

/// Once expired, a pickup stays expired through the rest of the run.
pub proof fn lemma_expired_stays(pickup: PickupModel, dts: Seq<u64>, m: int, n: int)
    requires
        0 <= m <= n <= dts.len(),
        pickup.after(dts.take(m)).expired,
    ensures
        pickup.after(dts.take(n)).expired,
    decreases n - m,
{
    if m < n {
        lemma_expired_stays(pickup, dts, m, n - 1);
        assert(dts.take(n).drop_last() =~= dts.take(n - 1));
    }
}

/// A pickup expires on at most one aging call of a run.
pub proof fn lemma_expires_at_most_once(pickup: PickupModel, dts: Seq<u64>, j: int, k: int)
    requires
        0 <= j < dts.len(),
        0 <= k < dts.len(),
        j != k,
        pickup.expires_at(dts, j),
    ensures
        !pickup.expires_at(dts, k),
{
    if j < k {
        assert(dts.take(j + 1).drop_last() =~= dts.take(j));
        lemma_expired_stays(pickup, dts, j + 1, k);
    } else {
        if pickup.expires_at(dts, k) {
            assert(dts.take(k + 1).drop_last() =~= dts.take(k));
            lemma_expired_stays(pickup, dts, k + 1, j);
        }
    }
}

/// While the time a live pickup has lived, plus all the elapsed time of a
/// run, stays short of its lifetime, it expires on no call of the run, and the
/// run's time is all added to the time lived.
pub proof fn lemma_alive_before_lifetime(pickup: PickupModel, dts: Seq<u64>)
    requires
        !pickup.expired,
        pickup.elapsed + total_time(dts) < pickup.lifetime,
    ensures
        forall|k: int| 0 <= k < dts.len() ==> !#[trigger] pickup.expires_at(dts, k),
        pickup.after(dts) == (PickupModel {
            elapsed: pickup.elapsed + total_time(dts),
            ..pickup
        }),
    decreases dts.len(),
{
    if dts.len() > 0 {
        let front = dts.drop_last();
        lemma_alive_before_lifetime(pickup, front);
        assert forall|k: int| 0 <= k < dts.len() implies !#[trigger] pickup.expires_at(dts, k) by {
            if k < front.len() {
                assert(front.take(k) =~= dts.take(k));
                assert(pickup.expires_at(front, k) == pickup.expires_at(dts, k));
            } else {
                assert(dts.take(k) =~= front);
            }
        }
    }
}

/// Once the time a live pickup has lived, plus the elapsed time of a run of
/// aging calls, reaches its lifetime, the pickup expires on exactly one call
/// of the run.
pub proof fn lemma_expires_exactly_once(pickup: PickupModel, dts: Seq<u64>) -> (k: int)
    requires
        !pickup.expired,
        dts.len() > 0,
        pickup.elapsed + total_time(dts) >= pickup.lifetime,
    ensures
        0 <= k < dts.len(),
        pickup.expires_at(dts, k),
        forall|j: int| 0 <= j < dts.len() && j != k ==> !#[trigger] pickup.expires_at(dts, j),
    decreases dts.len(),
{
    let front = dts.drop_last();
    let last = dts.len() - 1;
    let k = if pickup.elapsed + total_time(front) < pickup.lifetime {
        lemma_alive_before_lifetime(pickup, front);
        assert(dts.take(last) =~= front);
        last
    } else if front.len() == 0 {
        assert(dts.take(last) =~= front);
        last
    } else {
        let k = lemma_expires_exactly_once(pickup, front);
        assert(front.take(k) =~= dts.take(k));
        k
    };
    assert(pickup.expires_at(dts, k));
    assert forall|j: int| 0 <= j < dts.len() && j != k implies !#[trigger] pickup.expires_at(
        dts,
        j,
    ) by {
        lemma_expires_at_most_once(pickup, dts, k, j);
    }
    k
}

/// An identifier is in the removal list exactly if a pickup that bears it
/// expires on this call.
pub proof fn lemma_expiring_ids_contains(pickups: Seq<PickupModel>, dt: nat, id: u64)
    ensures
        expiring_ids(pickups, dt).contains(id) <==> exists|i: int|
            0 <= i < pickups.len() && (#[trigger] pickups[i]).id == id && pickups[i].expires_on(dt),
    decreases pickups.len(),
{
    if pickups.len() > 0 {
        let front = pickups.drop_last();
        let last = pickups.len() - 1;
        lemma_expiring_ids_contains(front, dt, id);
        let ids = expiring_ids(pickups, dt);
        let front_ids = expiring_ids(front, dt);
        if ids.contains(id) {
            if front_ids.contains(id) {
                let i = choose|i: int|
                    0 <= i < front.len() && (#[trigger] front[i]).id == id && front[i].expires_on(
                        dt,
                    );
                assert(pickups[i].id == id && pickups[i].expires_on(dt));
            } else {
                let at = choose|at: int| 0 <= at < ids.len() && ids[at] == id;
                assert(pickups.last().expires_on(dt));
                assert(at == front_ids.len()) by {
                    if at < front_ids.len() {
                        assert(front_ids[at] == id);
                    }
                }
                assert(pickups[last].id == id && pickups[last].expires_on(dt));
            }
        }
        if exists|i: int|
            0 <= i < pickups.len() && (#[trigger] pickups[i]).id == id && pickups[i].expires_on(dt) {
            let i = choose|i: int|
                0 <= i < pickups.len() && (#[trigger] pickups[i]).id == id && pickups[i].expires_on(
                    dt,
                );
            if i < last {
                assert(front[i].id == id && front[i].expires_on(dt));
                let at = choose|at: int| 0 <= at < front_ids.len() && front_ids[at] == id;
                assert(ids[at] == id);
            } else {
                assert(ids[front_ids.len() as int] == id);
            }
        }
    }
}

/// Where no two pickups share an identifier, no identifier stands twice in a
/// removal list.
pub proof fn lemma_expiring_ids_no_duplicates(pickups: Seq<PickupModel>, dt: nat)
    requires
        distinct_ids(pickups),
    ensures
        expiring_ids(pickups, dt).no_duplicates(),
    decreases pickups.len(),
{
    if pickups.len() > 0 {
        let front = pickups.drop_last();
        assert(distinct_ids(front)) by {
            assert forall|i: int, j: int| 0 <= i < j < front.len() implies (#[trigger] front[i]).id
                != (#[trigger] front[j]).id by {
                assert(pickups[i].id != pickups[j].id);
            }
        }
        lemma_expiring_ids_no_duplicates(front, dt);
        if pickups.last().expires_on(dt) {
            let id = pickups.last().id;
            lemma_expiring_ids_contains(front, dt, id);
            if expiring_ids(front, dt).contains(id) {
                let i = choose|i: int|
                    0 <= i < front.len() && (#[trigger] front[i]).id == id && front[i].expires_on(
                        dt,
                    );
                assert(pickups[i].id != pickups[pickups.len() - 1].id);
            }
        }
    }
}

/// Over a run of aging calls during which no pickup joins or leaves, and
/// where no two pickups share an identifier: once the time a live pickup has
/// lived, plus the elapsed time of the run, reaches its lifetime, its
/// identifier stands in the removal list of exactly one call, and there once.
pub proof fn lemma_removed_exactly_once(pickups: Seq<PickupModel>, dts: Seq<u64>, i: int) -> (k:
    int)
    requires
        distinct_ids(pickups),
        0 <= i < pickups.len(),
        !pickups[i].expired,
        dts.len() > 0,
        pickups[i].elapsed + total_time(dts) >= pickups[i].lifetime,
    ensures
        0 <= k < dts.len(),
        removal_list(pickups, dts, k).contains(pickups[i].id),
        removal_list(pickups, dts, k).no_duplicates(),
        forall|j: int|
            0 <= j < dts.len() && j != k ==> !(#[trigger] removal_list(pickups, dts, j)).contains(
                pickups[i].id,
            ),
{
    let id = pickups[i].id;
    let k = lemma_expires_exactly_once(pickups[i], dts);
    assert forall|j: int| 0 <= j < dts.len() implies (#[trigger] removal_list(
        pickups,
        dts,
        j,
    )).contains(id) == pickups[i].expires_at(dts, j) && removal_list(pickups, dts, j).no_duplicates() by {
        let population = population_after(pickups, dts.take(j));
        assert(distinct_ids(population)) by {
            assert forall|a: int, b: int| 0 <= a < b < population.len() implies (
            #[trigger] population[a]).id != (#[trigger] population[b]).id by {
                lemma_after_keeps_identity(pickups[a], dts.take(j));
                lemma_after_keeps_identity(pickups[b], dts.take(j));
                assert(pickups[a].id != pickups[b].id);
            }
        }
        lemma_after_keeps_identity(pickups[i], dts.take(j));
        lemma_expiring_ids_contains(population, dts[j] as nat, id);
        lemma_expiring_ids_no_duplicates(population, dts[j] as nat);
        if removal_list(pickups, dts, j).contains(id) {
            let at = choose|at: int|
                0 <= at < population.len() && (#[trigger] population[at]).id == id
                    && population[at].expires_on(dts[j] as nat);
            if at != i {
                if at < i {
                    assert(population[at].id != population[i].id);
                } else {
                    assert(population[i].id != population[at].id);
                }
            }
        }
        if pickups[i].expires_at(dts, j) {
            assert(population[i].id == id && population[i].expires_on(dts[j] as nat));
        }
    }
    k
}

} // verus!
