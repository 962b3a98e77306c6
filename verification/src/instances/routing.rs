//! Which instances have which torrents.

use vstd::prelude::*;

use crate::instances::wire::hash_views;
use crate::instances::InstanceId;

verus! {

/// Whether two info hashes are the same.
pub fn same_hash(a: &[u8; 20], b: &[u8; 20]) -> (same: bool)
    ensures
        same == (a@ == b@),
{
    for i in 0..20usize
        invariant
            forall|j: int| 0 <= j < i ==> a@[j] == b@[j],
    {
        if a[i] != b[i] {
            assert(a@[i as int] != b@[i as int]);
            return false;
        }
    }
    assert(a@ == b@);
    true
}

/// One instance that has one torrent.
#[derive(Debug)]
struct Route {
    info_hash: [u8; 20],
    instance_id: InstanceId,
}

/// A route as the table's view holds it: the hash of the torrent, the instance.
pub type RouteView = (Seq<u8>, Seq<char>);

/// The instances known to have each torrent. The view is the set of routes;
/// none occurs twice.
#[derive(Debug)]
pub struct RoutingTable {
    routes: Vec<Route>,
}

impl Route {
    spec fn pair(self) -> RouteView {
        (self.info_hash@, self.instance_id@)
    }
}

impl View for RoutingTable {
    type V = Set<RouteView>;

    closed spec fn view(&self) -> Set<RouteView> {
        Set::new(|p: RouteView| self.holds(p, self.routes.len() as int))
    }
}

/// The routes of instances other than `instance_id`.
pub open spec fn without_instance(routes: Set<RouteView>, instance_id: Seq<char>) -> Set<
    RouteView,
> {
    routes.filter(|p: RouteView| p.1 != instance_id)
}

/// `routes` and those from each of `hashes` to `instance_id`.
pub open spec fn with_routes(
    routes: Set<RouteView>,
    hashes: Seq<Seq<u8>>,
    instance_id: Seq<char>,
) -> Set<RouteView> {
    Set::new(|p: RouteView| routes.contains(p) || (p.1 == instance_id && hashes.contains(p.0)))
}

/// `routes` but for those from each of `hashes` to `instance_id`.
pub open spec fn without_routes(
    routes: Set<RouteView>,
    hashes: Seq<Seq<u8>>,
    instance_id: Seq<char>,
) -> Set<RouteView> {
    Set::new(|p: RouteView| routes.contains(p) && !(p.1 == instance_id && hashes.contains(p.0)))
}

/// Whether some instance is known to have the torrent.
pub open spec fn is_routed(routes: Set<RouteView>, info_hash: Seq<u8>) -> bool {
    exists|id: Seq<char>| routes.contains((info_hash, id))
}

/// Whether the same instances are known to have the torrent in both.
pub open spec fn same_instances(
    routes: Set<RouteView>,
    other: Set<RouteView>,
    info_hash: Seq<u8>,
) -> bool {
    forall|id: Seq<char>| #[trigger]
        routes.contains((info_hash, id)) == other.contains((info_hash, id))
}

/// The name of an instance, if there is one.
pub open spec fn named(id: Option<InstanceId>) -> Option<Seq<char>> {
    match id {
        Some(id) => Some(id@),
        None => None,
    }
}

/// The instance of the first of the routes that is one of the torrent.
spec fn first_holder(routes: Seq<Route>, info_hash: Seq<u8>) -> Option<Seq<char>>
    decreases routes.len(),
{
    if routes.len() == 0 {
        None
    } else if routes[0].info_hash@ == info_hash {
        Some(routes[0].instance_id@)
    } else {
        first_holder(routes.skip(1), info_hash)
    }
}

/// A route of another torrent at the end changes nothing for this one.
proof fn lemma_first_holder_push(routes: Seq<Route>, last: Route, info_hash: Seq<u8>)
    requires
        last.info_hash@ != info_hash,
    ensures
        first_holder(routes.push(last), info_hash) == first_holder(routes, info_hash),
    decreases routes.len(),
{
    let longer = routes.push(last);
    if routes.len() == 0 {
        assert(first_holder(longer.skip(1), info_hash) is None);
    } else {
        assert(longer[0] == routes[0]);
        assert(longer.skip(1) == routes.skip(1).push(last));
        lemma_first_holder_push(routes.skip(1), last, info_hash);
    }
}

/// Taking a route of another torrent out changes nothing for this one.
proof fn lemma_first_holder_remove(routes: Seq<Route>, k: int, info_hash: Seq<u8>)
    requires
        0 <= k < routes.len(),
        routes[k].info_hash@ != info_hash,
    ensures
        first_holder(routes.remove(k), info_hash) == first_holder(routes, info_hash),
    decreases routes.len(),
{
    if k == 0 {
        assert(routes.remove(0) == routes.skip(1));
    } else {
        assert(routes.remove(k)[0] == routes[0]);
        assert(routes.remove(k).skip(1) == routes.skip(1).remove(k - 1));
        assert(routes.skip(1)[k - 1] == routes[k]);
        lemma_first_holder_remove(routes.skip(1), k - 1, info_hash);
    }
}

impl RoutingTable {
    /// The instance that a lookup of the torrent names. It is the same one as
    /// long as the table does not change.
    pub closed spec fn holder(self, info_hash: Seq<u8>) -> Option<Seq<char>> {
        first_holder(self.routes@, info_hash)
    }

    /// Whether `p` is among the first `n` routes.
    spec fn holds(self, p: RouteView, n: int) -> bool {
        exists|i: int| 0 <= i < n && (#[trigger] self.routes[i]).pair() == p
    }

    /// No route occurs twice.
    pub closed spec fn wf(self) -> bool {
        forall|i: int, j: int|
            0 <= i < j < self.routes.len() ==> (#[trigger] self.routes[i]).pair() != (
            #[trigger] self.routes[j]).pair()
    }

    /// A table of no routes.
    pub fn new() -> (table: Self)
        ensures
            table.wf(),
            table@ == Set::<RouteView>::empty(),
    {
        let table = RoutingTable { routes: Vec::new() };
        assert(table@ == Set::<RouteView>::empty());
        table
    }

    /// The position of a route; the number of routes if it is not there.
    fn position(&self, info_hash: &[u8; 20], instance_id: &InstanceId) -> (index: usize)
        ensures
            index <= self.routes.len(),
            index < self.routes.len() ==> self.routes[index as int].pair() == (
                info_hash@,
                instance_id@,
            ),
            index == self.routes.len() ==> !self@.contains((info_hash@, instance_id@)),
    {
        let n: usize = self.routes.len();
        for i in 0..n
            invariant
                n == self.routes.len(),
                !self.holds((info_hash@, instance_id@), i as int),
        {
            if same_hash(&self.routes[i].info_hash, info_hash)
                && self.routes[i].instance_id == *instance_id {
                return i;
            }
        }
        n
    }

    /// Notes that the instance has the torrent.
    pub fn add(&mut self, info_hash: &[u8; 20], instance_id: InstanceId)
        requires
            old(self).wf(),
        ensures
            final(self).wf(),
            final(self)@ == old(self)@.insert((info_hash@, instance_id@)),
            forall|h: Seq<u8>|
                h != info_hash@ || old(self)@.contains((info_hash@, instance_id@))
                    ==> #[trigger] final(self).holder(h) == old(self).holder(h),
    {
        let ghost p = (info_hash@, instance_id@);
        let ghost n = self.routes.len() as int;
        if self.position(info_hash, &instance_id) == self.routes.len() {
            self.routes.push(Route { info_hash: *info_hash, instance_id });
            assert forall|h: Seq<u8>| h != info_hash@ implies #[trigger] self.holder(h) == old(
                self,
            ).holder(h) by {
                lemma_first_holder_push(old(self).routes@, self.routes[n], h);
            }
            assert(self.routes[n].pair() == p);
            assert forall|q: RouteView| #[trigger] self@.contains(q) == (old(self)@.contains(q)
                || q == p) by {
                if old(self)@.contains(q) {
                    let i = choose|i: int|
                        0 <= i < n && (#[trigger] old(self).routes[i]).pair() == q;
                    assert(self.routes[i].pair() == q);
                }
                if self@.contains(q) {
                    let i = choose|i: int|
                        0 <= i < n + 1 && (#[trigger] self.routes[i]).pair() == q;
                    if i < n {
                        assert(old(self).routes[i].pair() == q);
                    }
                }
            }
            assert forall|i: int, j: int| 0 <= i < j < self.routes.len() implies (
            #[trigger] self.routes[i]).pair() != (#[trigger] self.routes[j]).pair() by {
                assert(self.routes[i] == old(self).routes[i]);
                if j == n {
                    assert(old(self).routes[i].pair() != p);
                } else {
                    assert(self.routes[j] == old(self).routes[j]);
                }
            }
        }
        assert(self@ == old(self)@.insert(p));
    }

    /// Notes that the instance has each of the torrents.
    pub fn add_many(&mut self, info_hashes: &Vec<[u8; 20]>, instance_id: &InstanceId)
        requires
            old(self).wf(),
        ensures
            final(self).wf(),
            final(self)@ == with_routes(old(self)@, hash_views(info_hashes@), instance_id@),
            forall|h: Seq<u8>|
                !hash_views(info_hashes@).contains(h) || old(self)@.contains((h, instance_id@))
                    ==> #[trigger] final(self).holder(h) == old(self).holder(h),
    {
        let n: usize = info_hashes.len();
        let ghost hashes = hash_views(info_hashes@);
        assert(self@ == with_routes(old(self)@, hashes.take(0), instance_id@));
        for i in 0..n
            invariant
                n == info_hashes.len(),
                hashes == hash_views(info_hashes@),
                self.wf(),
                self@ == with_routes(old(self)@, hashes.take(i as int), instance_id@),
                forall|h: Seq<u8>|
                    !hashes.take(i as int).contains(h) || old(self)@.contains((h, instance_id@))
                        ==> #[trigger] self.holder(h) == old(self).holder(h),
        {
            assert(hashes[i as int] == info_hashes[i as int]@);
            let ghost before = self@;
            self.add(&info_hashes[i], instance_id.clone());
            proof {
                lemma_take_contains(hashes, i as int);
            }
            assert(self@ == with_routes(old(self)@, hashes.take(i + 1), instance_id@));
        }
        assert(hashes.take(n as int) == hashes);
    }

    /// Takes the route at `index` out.
    fn remove_at(&mut self, index: usize)
        requires
            old(self).wf(),
            index < old(self).routes.len(),
        ensures
            final(self).wf(),
            final(self).routes@ == old(self).routes@.remove(index as int),
            final(self)@ == old(self)@.remove(old(self).routes[index as int].pair()),
            forall|h: Seq<u8>|
                h != old(self).routes[index as int].info_hash@ ==> #[trigger] final(self).holder(h)
                    == old(self).holder(h),
    {
        let ghost p = self.routes[index as int].pair();
        let ghost k = index as int;
        let _ = self.routes.remove(index);
        assert forall|h: Seq<u8>| h != old(self).routes[k].info_hash@ implies #[trigger] self.holder(
            h,
        ) == old(self).holder(h) by {
            lemma_first_holder_remove(old(self).routes@, k, h);
        }
        assert forall|i: int| 0 <= i < self.routes.len() implies #[trigger] self.routes[i]
            == old(self).routes[if i < k {
            i
        } else {
            i + 1
        }] by {}
        assert forall|q: RouteView| #[trigger] self@.contains(q) == (old(self)@.contains(q) && q
            != p) by {
            if self@.contains(q) {
                let i = choose|i: int|
                    0 <= i < self.routes.len() && (#[trigger] self.routes[i]).pair() == q;
                let from = if i < k {
                    i
                } else {
                    i + 1
                };
                assert(old(self).routes[from].pair() == q);
                assert(old(self).routes[k].pair() == p);
            }
            if old(self)@.contains(q) && q != p {
                let i = choose|i: int|
                    0 <= i < old(self).routes.len() && (#[trigger] old(self).routes[i]).pair()
                        == q;
                let to = if i < k {
                    i
                } else {
                    i - 1
                };
                assert(self.routes[to].pair() == q);
            }
        }
        assert(self@ == old(self)@.remove(p));
    }

    /// Forgets that the instance has the torrent.
    pub fn remove(&mut self, info_hash: &[u8; 20], instance_id: &InstanceId)
        requires
            old(self).wf(),
        ensures
            final(self).wf(),
            final(self)@ == old(self)@.remove((info_hash@, instance_id@)),
            forall|h: Seq<u8>|
                h != info_hash@ || !old(self)@.contains((info_hash@, instance_id@))
                    ==> #[trigger] final(self).holder(h) == old(self).holder(h),
    {
        let index: usize = self.position(info_hash, instance_id);
        if index < self.routes.len() {
            assert(self.routes[index as int].pair() == (info_hash@, instance_id@));
            assert(self@.contains((info_hash@, instance_id@)));
            self.remove_at(index);
        } else {
            assert(self@ == old(self)@.remove((info_hash@, instance_id@)));
        }
    }

    /// Forgets that the instance has any of the torrents.
    pub fn remove_many(&mut self, info_hashes: &Vec<[u8; 20]>, instance_id: &InstanceId)
        requires
            old(self).wf(),
        ensures
            final(self).wf(),
            final(self)@ == without_routes(old(self)@, hash_views(info_hashes@), instance_id@),
            forall|h: Seq<u8>|
                !hash_views(info_hashes@).contains(h) || !old(self)@.contains((h, instance_id@))
                    ==> #[trigger] final(self).holder(h) == old(self).holder(h),
    {
        let n: usize = info_hashes.len();
        let ghost hashes = hash_views(info_hashes@);
        assert(self@ == without_routes(old(self)@, hashes.take(0), instance_id@));
        for i in 0..n
            invariant
                n == info_hashes.len(),
                hashes == hash_views(info_hashes@),
                self.wf(),
                self@ == without_routes(old(self)@, hashes.take(i as int), instance_id@),
                forall|h: Seq<u8>|
                    !hashes.take(i as int).contains(h) || !old(self)@.contains((h, instance_id@))
                        ==> #[trigger] self.holder(h) == old(self).holder(h),
        {
            assert(hashes[i as int] == info_hashes[i as int]@);
            self.remove(&info_hashes[i], instance_id);
            proof {
                lemma_take_contains(hashes, i as int);
            }
            assert(self@ == without_routes(old(self)@, hashes.take(i + 1), instance_id@));
        }
        assert(hashes.take(n as int) == hashes);
    }

    /// Forgets all routes of the instance.
    pub fn remove_instance(&mut self, instance_id: &InstanceId)
        requires
            old(self).wf(),
        ensures
            final(self).wf(),
            final(self)@ == without_instance(old(self)@, instance_id@),
            forall|h: Seq<u8>|
                !old(self)@.contains((h, instance_id@)) ==> #[trigger] final(self).holder(h) == old(
                    self,
                ).holder(h),
    {
        let mut i: usize = 0;
        while i < self.routes.len()
            invariant
                i <= self.routes.len(),
                self.wf(),
                forall|p: RouteView| #[trigger] self@.contains(p) ==> old(self)@.contains(p),
                forall|p: RouteView|
                    old(self)@.contains(p) && p.1 != instance_id@ ==> #[trigger] self@.contains(p),
                forall|j: int|
                    0 <= j < i ==> (#[trigger] self.routes[j]).instance_id@ != instance_id@,
                forall|h: Seq<u8>|
                    !old(self)@.contains((h, instance_id@)) ==> #[trigger] self.holder(h) == old(
                        self,
                    ).holder(h),
            decreases self.routes.len() - i,
        {
            if self.routes[i].instance_id == *instance_id {
                assert(self.routes[i as int].pair() == (
                    self.routes[i as int].info_hash@,
                    instance_id@,
                ));
                assert(self@.contains(self.routes[i as int].pair()));
                self.remove_at(i);
            } else {
                i = i + 1;
            }
        }
        assert forall|p: RouteView| self@.contains(p) implies p.1 != instance_id@ by {
            let j = choose|j: int|
                0 <= j < self.routes.len() && (#[trigger] self.routes[j]).pair() == p;
            assert(self.routes[j].instance_id@ != instance_id@);
        }
        assert(self@ == without_instance(old(self)@, instance_id@));
    }

    /// An instance that has the torrent, if any is known to. Which one it is
    /// where there are several is left open.
    pub fn lookup(&self, info_hash: &[u8; 20]) -> (r: Option<InstanceId>)
        ensures
            named(r) == self.holder(info_hash@),
            match r {
                Some(id) => self@.contains((info_hash@, id@)),
                None => !is_routed(self@, info_hash@),
            },
    {
        let n: usize = self.routes.len();
        assert(self.routes@.skip(0) == self.routes@);
        for i in 0..n
            invariant
                n == self.routes.len(),
                self.holder(info_hash@) == first_holder(self.routes@.skip(i as int), info_hash@),
                forall|j: int| 0 <= j < i ==> (#[trigger] self.routes[j]).info_hash@ != info_hash@,
        {
            assert(self.routes@.skip(i as int)[0] == self.routes[i as int]);
            assert(self.routes@.skip(i as int).skip(1) == self.routes@.skip(i + 1));
            if same_hash(&self.routes[i].info_hash, info_hash) {
                let id: InstanceId = self.routes[i].instance_id.clone();
                assert(self.routes[i as int].pair() == (info_hash@, id@));
                return Some(id);
            }
        }
        assert forall|id: Seq<char>| !self@.contains((info_hash@, id)) by {
            if self@.contains((info_hash@, id)) {
                let j = choose|j: int|
                    0 <= j < n && (#[trigger] self.routes[j]).pair() == (info_hash@, id);
                assert(self.routes[j].info_hash@ == info_hash@);
            }
        }
        None
    }

    /// The torrents that some instance is known to have, each once, in an
    /// order that is left open.
    pub fn snapshot(&self) -> (hashes: Vec<[u8; 20]>)
        ensures
            hash_views(hashes@).no_duplicates(),
            forall|h: Seq<u8>|
                #[trigger] hash_views(hashes@).contains(h) <==> is_routed(self@, h),
    {
        let n: usize = self.routes.len();
        let mut hashes: Vec<[u8; 20]> = Vec::new();
        for i in 0..n
            invariant
                n == self.routes.len(),
                hash_views(hashes@).no_duplicates(),
                forall|h: Seq<u8>|
                    #[trigger] hash_views(hashes@).contains(h) <==> exists|j: int|
                        0 <= j < i && (#[trigger] self.routes[j]).info_hash@ == h,
        {
            let ghost before = hashes@;
            if !contains_hash(&hashes, &self.routes[i].info_hash) {
                hashes.push(self.routes[i].info_hash);
                proof {
                    lemma_views_push(before, self.routes[i as int].info_hash);
                }
            }
            assert forall|h: Seq<u8>| #[trigger] hash_views(hashes@).contains(h) <==> exists|
                j: int,
            |
                0 <= j < i + 1 && (#[trigger] self.routes[j]).info_hash@ == h by {
                if h == self.routes[i as int].info_hash@ {
                    assert(hash_views(hashes@).contains(h));
                } else {
                    assert(hash_views(hashes@).contains(h) == hash_views(before).contains(h));
                }
            }
        }
        assert forall|h: Seq<u8>| #[trigger] hash_views(hashes@).contains(h) <==> is_routed(
            self@,
            h,
        ) by {
            if hash_views(hashes@).contains(h) {
                let j = choose|j: int|
                    0 <= j < n && (#[trigger] self.routes[j]).info_hash@ == h;
                assert(self.routes[j].pair() == (h, self.routes[j].instance_id@));
                assert(self@.contains((h, self.routes[j].instance_id@)));
            }
            if is_routed(self@, h) {
                let id = choose|id: Seq<char>| self@.contains((h, id));
                let j = choose|j: int|
                    0 <= j < n && (#[trigger] self.routes[j]).pair() == (h, id);
                assert(self.routes[j].info_hash@ == h);
            }
        }
        hashes
    }
}

impl Default for RoutingTable {
    fn default() -> (table: Self)
        ensures
            table.wf(),
            table@ == Set::<RouteView>::empty(),
    {
        Self::new()
    }
}

/// A torrent is known to be where it was noted to be; and once that is
/// forgotten, the other routes are what they were.
pub proof fn law_remove_undoes_add(routes: Set<RouteView>, info_hash: Seq<u8>, id: Seq<char>)
    ensures
        is_routed(routes.insert((info_hash, id)), info_hash),
        !routes.contains((info_hash, id)) ==> routes.insert((info_hash, id)).remove((info_hash, id))
            == routes,
{
    assert(routes.insert((info_hash, id)).contains((info_hash, id)));
    if !routes.contains((info_hash, id)) {
        assert(routes.insert((info_hash, id)).remove((info_hash, id)) =~= routes);
    }
}

/// Noting many torrents of an instance and forgetting each of them leaves none
/// of those routes, and all others.
pub proof fn law_many_come_and_go(routes: Set<RouteView>, hashes: Seq<Seq<u8>>, id: Seq<char>)
    ensures
        without_routes(with_routes(routes, hashes, id), hashes, id) == without_routes(
            routes,
            hashes,
            id,
        ),
        with_routes(without_routes(routes, hashes, id), hashes, id) == with_routes(
            routes,
            hashes,
            id,
        ),
{
    assert(without_routes(with_routes(routes, hashes, id), hashes, id) =~= without_routes(
        routes,
        hashes,
        id,
    ));
    assert(with_routes(without_routes(routes, hashes, id), hashes, id) =~= with_routes(
        routes,
        hashes,
        id,
    ));
}

/// An instance of which everything is forgotten has no torrent; what is known
/// of the others stays.
pub proof fn law_forgotten_instance_has_nothing(routes: Set<RouteView>, id: Seq<char>)
    ensures
        forall|h: Seq<u8>| !#[trigger] without_instance(routes, id).contains((h, id)),
        forall|p: RouteView|
            p.1 != id ==> without_instance(routes, id).contains(p) == #[trigger] routes.contains(p),
        without_instance(without_instance(routes, id), id) == without_instance(routes, id),
{
    assert(without_instance(without_instance(routes, id), id) =~= without_instance(routes, id));
}

/// Whether the hash is among the hashes.
pub fn contains_hash(hashes: &Vec<[u8; 20]>, info_hash: &[u8; 20]) -> (found: bool)
    ensures
        found == hash_views(hashes@).contains(info_hash@),
{
    let n: usize = hashes.len();
    for i in 0..n
        invariant
            n == hashes.len(),
            forall|j: int| 0 <= j < i ==> hash_views(hashes@)[j] != info_hash@,
    {
        assert(hash_views(hashes@)[i as int] == hashes[i as int]@);
        if same_hash(&hashes[i], info_hash) {
            return true;
        }
    }
    false
}

/// The views of a list of hashes with one more at its end.
pub proof fn lemma_views_push(hashes: Seq<[u8; 20]>, info_hash: [u8; 20])
    ensures
        hash_views(hashes.push(info_hash)) == hash_views(hashes).push(info_hash@),
        forall|h: Seq<u8>| #[trigger]
            hash_views(hashes.push(info_hash)).contains(h) <==> hash_views(hashes).contains(h) || h
                == info_hash@,
{
    let longer = hash_views(hashes.push(info_hash));
    assert(longer == hash_views(hashes).push(info_hash@));
    assert forall|h: Seq<u8>| #[trigger] longer.contains(h) <==> hash_views(hashes).contains(h) || h
        == info_hash@ by {
        if hash_views(hashes).contains(h) {
            let i = choose|i: int| 0 <= i < hashes.len() && hash_views(hashes)[i] == h;
            assert(longer[i] == h);
        }
        if h == info_hash@ {
            assert(longer[hashes.len() as int] == h);
        }
    }
}

/// The first `i + 1` of some values are the first `i` and value `i`.
pub proof fn lemma_take_contains<T>(s: Seq<T>, i: int)
    requires
        0 <= i < s.len(),
    ensures
        forall|t: T| #[trigger]
            s.take(i + 1).contains(t) <==> s.take(i).contains(t) || t == s[i],
{
    let longer = s.take(i + 1);
    let shorter = s.take(i);
    assert forall|t: T| #[trigger] longer.contains(t) <==> shorter.contains(t) || t == s[i] by {
        if shorter.contains(t) {
            let j = choose|j: int| 0 <= j < i && shorter[j] == t;
            assert(longer[j] == t);
        }
        if t == s[i] {
            assert(longer[i] == t);
        }
        if longer.contains(t) {
            let j = choose|j: int| 0 <= j < longer.len() && longer[j] == t;
            if j < i {
                assert(shorter[j] == t);
            }
        }
    }
}

/// The name of an instance that was found is its name.
pub proof fn law_names_of_found_instances(id: InstanceId)
    ensures
        named(Some(id)) == Some(id@),
        named(None) is None,
{
}

} // verus!
