use bimap::BiBTreeMap;
use vstd::prelude::*;

verus! {

#[verifier::external_type_specification]
#[verifier::external_body]
#[verifier::reject_recursive_types(L)]
#[verifier::reject_recursive_types(R)]
pub struct ExBiBTreeMap<L, R>(BiBTreeMap<L, R>);

/// The left-to-right pairs a bimap holds.
pub uninterp spec fn bimap_pairs(m: BiBTreeMap<u64, u64>) -> Map<u64, u64>;

/// The pairs after inserting `(l, r)`: the pair with left value `l` and the
/// pair with right value `r` leave, then `(l, r)` comes in.
pub open spec fn spec_insert_pair(m: Map<u64, u64>, l: u64, r: u64) -> Map<u64, u64> {
    Map::new(
        |k: u64| k == l || (m.dom().contains(k) && m[k] != r),
        |k: u64|
            if k == l {
                r
            } else {
                m[k]
            },
    )
}

/// Calls `BiBTreeMap::new`, which starts with no pairs.
#[verifier::external_body]
fn bimap_new() -> (fresh: BiBTreeMap<u64, u64>)
    ensures
        bimap_pairs(fresh).dom() == Set::<u64>::empty(),
{
    BiBTreeMap::new()
}

/// Calls `BiBTreeMap::get_by_left`: the right value paired with `left`.
#[verifier::external_body]
fn bimap_get_by_left(m: &BiBTreeMap<u64, u64>, left: u64) -> (r: Option<u64>)
    ensures
        r == (if bimap_pairs(*m).dom().contains(left) {
            Some(bimap_pairs(*m)[left])
        } else {
            None
        }),
{
    m.get_by_left(&left).copied()
}

/// Calls `BiBTreeMap::get_by_right`: the left value paired with `right`.
#[verifier::external_body]
fn bimap_get_by_right(m: &BiBTreeMap<u64, u64>, right: u64) -> (r: Option<u64>)
    ensures
        r matches Some(l) ==> bimap_pairs(*m).dom().contains(l) && bimap_pairs(*m)[l] == right,
        r is None ==> forall|l: u64| #[trigger]
            bimap_pairs(*m).dom().contains(l) ==> bimap_pairs(*m)[l] != right,
{
    m.get_by_right(&right).copied()
}

/// Calls `BiBTreeMap::insert`, which removes the pair holding `left` and the
/// pair holding `right` before it adds `(left, right)`; what it reports of
/// the removed pairs is dropped.
#[verifier::external_body]
fn bimap_insert(m: &mut BiBTreeMap<u64, u64>, left: u64, right: u64)
    ensures
        bimap_pairs(*final(m)) == spec_insert_pair(bimap_pairs(*old(m)), left, right),
{
    m.insert(left, right);
}

/// Calls `BiBTreeMap::left_values`, which walks the left values in
/// ascending order (they are the keys of the bimap's left-to-right
/// `BTreeMap`), and collects them.
#[verifier::external_body]
fn bimap_left_values(m: &BiBTreeMap<u64, u64>) -> (v: Vec<u64>)
    ensures
        forall|k: u64| v@.contains(k) <==> bimap_pairs(*m).dom().contains(k),
        forall|i: int, j: int| 0 <= i < j < v@.len() ==> v@[i] < v@[j],
{
    m.left_values().copied().collect()
}

/// The largest left value of a bimap, if it holds any pair.
fn bimap_max_left(m: &BiBTreeMap<u64, u64>) -> (r: Option<u64>)
    ensures
        r is None <==> bimap_pairs(*m).dom() == Set::<u64>::empty(),
        r matches Some(v) ==> bimap_pairs(*m).dom().contains(v) && forall|k: u64| #[trigger]
            bimap_pairs(*m).dom().contains(k) ==> k <= v,
{
    let values = bimap_left_values(m);
    let n = values.len();
    if n == 0 {
        assert(bimap_pairs(*m).dom() =~= Set::<u64>::empty()) by {
            assert forall|k: u64| !bimap_pairs(*m).dom().contains(k) by {
                assert(!values@.contains(k));
            }
        }
        None
    } else {
        let v = values[n - 1];
        assert(values@.contains(v));
        assert forall|k: u64| #[trigger] bimap_pairs(*m).dom().contains(k) implies k <= v by {
            assert(values@.contains(k));
            let i = choose|i: int| 0 <= i < values@.len() && values@[i] == k;
            if i < n - 1 {
                assert(values@[i] < values@[n - 1]);
            }
        }
        assert(bimap_pairs(*m).dom() != Set::<u64>::empty()) by {
            assert(bimap_pairs(*m).dom().contains(v));
        }
        Some(v)
    }
}

/// No two sessions are paired with the same entity.
pub open spec fn injective(m: Map<u64, u64>) -> bool {
    forall|a: u64, b: u64|
        #![trigger m[a], m[b]]
        m.dom().contains(a) && m.dom().contains(b) && a != b ==> m[a] != m[b]
}

/// The players bound to a runner: each session id the runner handed out,
/// paired one to one with the player entity (by its bits) it stands for.
pub struct PlayerSessions {
    players: BiBTreeMap<u64, u64>,
}

impl View for PlayerSessions {
    type V = Map<u64, u64>;

    closed spec fn view(&self) -> Map<u64, u64> {
        bimap_pairs(self.players)
    }
}

impl PlayerSessions {
    #[verifier::type_invariant]
    spec fn inv(self) -> bool {
        injective(bimap_pairs(self.players))
    }

    /// No player is bound yet.
    pub fn new() -> (s: Self)
        ensures
            s@ == Map::<u64, u64>::empty(),
            injective(s@),
    {
        let s = PlayerSessions { players: bimap_new() };
        assert(s@ =~= Map::<u64, u64>::empty());
        s
    }

    /// The entity a session id stands for.
    pub fn entity_of(&self, session_id: u64) -> (r: Option<u64>)
        ensures
            r == (if self@.dom().contains(session_id) {
                Some(self@[session_id])
            } else {
                None
            }),
    {
        bimap_get_by_left(&self.players, session_id)
    }

    /// The session id an entity is bound under.
    pub fn session_of(&self, entity: u64) -> (r: Option<u64>)
        ensures
            r matches Some(s) ==> self@.dom().contains(s) && self@[s] == entity,
            r is None ==> forall|s: u64| #[trigger] self@.dom().contains(s) ==> self@[s] != entity,
            injective(self@),
    {
        proof {
            use_type_invariant(self);
        }
        bimap_get_by_right(&self.players, entity)
    }

    /// The largest session id handed out, if any.
    pub fn max_session_id(&self) -> (r: Option<u64>)
        ensures
            r is None <==> self@.dom() == Set::<u64>::empty(),
            r matches Some(v) ==> self@.dom().contains(v) && forall|k: u64| #[trigger]
                self@.dom().contains(k) ==> k <= v,
    {
        bimap_max_left(&self.players)
    }

    /// Binds a player entity under a fresh session id, one past the largest
    /// handed out (0 for the first); a binding the entity had before leaves.
    pub fn bind_player(&mut self, entity: u64) -> (session_id: u64)
        requires
            forall|k: u64| #[trigger] old(self)@.dom().contains(k) ==> k < u64::MAX,
        ensures
            old(self)@.dom() == Set::<u64>::empty() ==> session_id == 0,
            old(self)@.dom() != Set::<u64>::empty() ==> old(self)@.dom().contains(
                (session_id - 1) as u64,
            ),
            forall|k: u64| #[trigger] old(self)@.dom().contains(k) ==> k < session_id,
            final(self)@ == spec_insert_pair(old(self)@, session_id, entity),
            injective(final(self)@),
    {
        proof {
            use_type_invariant(&*self);
        }
        let session_id = match bimap_max_left(&self.players) {
            Some(v) => {
                assert(self@.dom().contains(v));
                v + 1
            },
            None => 0,
        };
        let ghost old_pairs = self@;
        proof {
            lemma_insert_pair_injective(old_pairs, session_id, entity);
        }
        let mut players = bimap_new();
        core::mem::swap(&mut players, &mut self.players);
        bimap_insert(&mut players, session_id, entity);
        self.players = players;
        session_id
    }
}

/// After a player is bound, its session id leads to it and it leads back to
/// its session id alone; every other binding of another entity stays.
pub proof fn lemma_bound_player_found(m: Map<u64, u64>, session_id: u64, entity: u64)
    requires
        injective(m),
    ensures
        spec_insert_pair(m, session_id, entity).dom().contains(session_id),
        spec_insert_pair(m, session_id, entity)[session_id] == entity,
        forall|k: u64| #[trigger]
            spec_insert_pair(m, session_id, entity).dom().contains(k) && spec_insert_pair(
                m,
                session_id,
                entity,
            )[k] == entity ==> k == session_id,
        forall|k: u64|
            #![trigger m.dom().contains(k)]
            m.dom().contains(k) && k != session_id && m[k] != entity ==> spec_insert_pair(
                m,
                session_id,
                entity,
            ).dom().contains(k) && spec_insert_pair(m, session_id, entity)[k] == m[k],
{
}

/// Inserting a pair keeps the sessions paired one to one with entities.
pub proof fn lemma_insert_pair_injective(m: Map<u64, u64>, l: u64, r: u64)
    requires
        injective(m),
    ensures
        injective(spec_insert_pair(m, l, r)),
{
    let n = spec_insert_pair(m, l, r);
    assert forall|a: u64, b: u64|
        n.dom().contains(a) && n.dom().contains(b) && a != b implies n[a] != n[b] by {
        if a != l && b != l {
            assert(m[a] != m[b]);
        }
    }
}

} // verus!
