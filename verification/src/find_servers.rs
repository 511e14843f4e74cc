//! Finds the servers of the network, and among them those worth a hack.

use crate::f64_total::F64Total;
use crate::netscript::BitburnerError;
use crate::netscript::Shims;
use crate::netscript::NS;
use vstd::prelude::*;
use vstd::utf8::encode_utf8;
use vstd::utf8::encode_utf8_decode_utf8;

verus! {

/// Whether the bytes `a` come before the bytes `b` in the order of a
/// dictionary: at the first place where they differ `a` has the smaller
/// byte, or `a` ends there and `b` goes on.
pub open spec fn bytes_before(a: Seq<u8>, b: Seq<u8>) -> bool
    decreases a.len(),
{
    if b.len() == 0 {
        false
    } else if a.len() == 0 {
        true
    } else if a[0] != b[0] {
        a[0] < b[0]
    } else {
        bytes_before(a.drop_first(), b.drop_first())
    }
}

/// Whether the name `a` comes before the name `b`: the order of their
/// UTF-8 bytes, which is the order in which text is sorted.
pub open spec fn name_before(a: Seq<char>, b: Seq<char>) -> bool {
    bytes_before(encode_utf8(a), encode_utf8(b))
}

/// Names in strictly ascending order, so that none occurs twice.
pub open spec fn names_sorted(names: Seq<Seq<char>>) -> bool {
    forall|i: int, j: int|
        0 <= i < j < names.len() ==> name_before(#[trigger] names[i], #[trigger] names[j])
}

/// No sequence of bytes comes before itself.
pub proof fn lemma_bytes_before_irreflexive(a: Seq<u8>)
    ensures
        !bytes_before(a, a),
    decreases a.len(),
{
    if a.len() > 0 {
        lemma_bytes_before_irreflexive(a.drop_first());
    }
}

/// The order of bytes is transitive.
pub proof fn lemma_bytes_before_transitive(a: Seq<u8>, b: Seq<u8>, c: Seq<u8>)
    requires
        bytes_before(a, b),
        bytes_before(b, c),
    ensures
        bytes_before(a, c),
    decreases a.len(),
{
    if a.len() > 0 && a[0] == b[0] && b[0] == c[0] {
        lemma_bytes_before_transitive(a.drop_first(), b.drop_first(), c.drop_first());
    }
}

/// Of two different sequences of bytes one comes before the other.
pub proof fn lemma_bytes_before_total(a: Seq<u8>, b: Seq<u8>)
    ensures
        a == b || bytes_before(a, b) || bytes_before(b, a),
    decreases a.len(),
{
    if a.len() == 0 || b.len() == 0 {
        if a.len() == 0 && b.len() == 0 {
            assert(a =~= b);
        }
    } else if a[0] == b[0] {
        lemma_bytes_before_total(a.drop_first(), b.drop_first());
        if a.drop_first() == b.drop_first() {
            assert(a =~= seq![a[0]] + a.drop_first());
            assert(b =~= seq![b[0]] + b.drop_first());
        }
    }
}

/// Where two sequences agree on their first `i` bytes, their order is
/// that of what follows.
pub proof fn lemma_bytes_before_skip(a: Seq<u8>, b: Seq<u8>, i: int)
    requires
        0 <= i <= a.len(),
        i <= b.len(),
        forall|j: int| 0 <= j < i ==> a[j] == b[j],
    ensures
        bytes_before(a, b) == bytes_before(a.skip(i), b.skip(i)),
    decreases i,
{
    if i == 0 {
        assert(a.skip(0) =~= a);
        assert(b.skip(0) =~= b);
    } else {
        let a1 = a.drop_first();
        let b1 = b.drop_first();
        assert(a[0] == b[0]);
        assert forall|j: int| 0 <= j < i - 1 implies a1[j] == b1[j] by {
            assert(a1[j] == a[j + 1]);
            assert(b1[j] == b[j + 1]);
        }
        lemma_bytes_before_skip(a1, b1, i - 1);
        assert(a1.skip(i - 1) =~= a.skip(i));
        assert(b1.skip(i - 1) =~= b.skip(i));
    }
}

/// No name comes before itself, and the order of names is transitive.
pub proof fn lemma_name_order(a: Seq<char>, b: Seq<char>, c: Seq<char>)
    ensures
        !name_before(a, a),
        name_before(a, b) && name_before(b, c) ==> name_before(a, c),
        a == b || name_before(a, b) || name_before(b, a),
{
    lemma_bytes_before_irreflexive(encode_utf8(a));
    if name_before(a, b) && name_before(b, c) {
        lemma_bytes_before_transitive(encode_utf8(a), encode_utf8(b), encode_utf8(c));
    }
    lemma_bytes_before_total(encode_utf8(a), encode_utf8(b));
    if encode_utf8(a) == encode_utf8(b) {
        encode_utf8_decode_utf8(a);
        encode_utf8_decode_utf8(b);
    }
}

/// How two names stand to each other in the order of names.
#[derive(Debug, Clone, Copy, PartialEq, Eq, Structural)]
pub enum Rank {
    /// The first comes before the second.
    Before,
    /// They are the same name.
    Same,
    /// The first comes after the second.
    After,
}

/// Says how `a` stands to `b` in the order of names.
pub fn compare_names(a: &str, b: &str) -> (rank: Rank)
    ensures
        match rank {
            Rank::Before => name_before(a@, b@),
            Rank::Same => a@ == b@,
            Rank::After => name_before(b@, a@),
        },
{
    let a_bytes = a.as_bytes();
    let b_bytes = b.as_bytes();
    let mut i: usize = 0;
    while i < a_bytes.len() && i < b_bytes.len() && a_bytes[i] == b_bytes[i]
        invariant
            i <= a_bytes@.len(),
            i <= b_bytes@.len(),
            forall|j: int| 0 <= j < i ==> a_bytes@[j] == b_bytes@[j],
        decreases a_bytes@.len() - i,
    {
        i += 1;
    }
    proof {
        lemma_bytes_before_skip(a_bytes@, b_bytes@, i as int);
        lemma_bytes_before_skip(b_bytes@, a_bytes@, i as int);
    }
    if i == a_bytes.len() {
        if i == b_bytes.len() {
            proof {
                assert(a_bytes@ =~= b_bytes@);
                encode_utf8_decode_utf8(a@);
                encode_utf8_decode_utf8(b@);
            }
            Rank::Same
        } else {
            Rank::Before
        }
    } else if i == b_bytes.len() {
        Rank::After
    } else if a_bytes[i] < b_bytes[i] {
        proof {
            assert(a_bytes@.skip(i as int)[0] == a_bytes@[i as int]);
            assert(b_bytes@.skip(i as int)[0] == b_bytes@[i as int]);
        }
        Rank::Before
    } else {
        proof {
            assert(a_bytes@.skip(i as int)[0] == a_bytes@[i as int]);
            assert(b_bytes@.skip(i as int)[0] == b_bytes@[i as int]);
        }
        Rank::After
    }
}


/// The names that a sequence of texts holds, in the same order.
pub open spec fn names_of(texts: Seq<String>) -> Seq<Seq<char>> {
    texts.map_values(|text: String| text@)
}

/// A set of server names, listed in ascending order.
#[derive(Debug)]
pub struct ServerNames {
    names: Vec<String>,
}

impl View for ServerNames {
    type V = Seq<Seq<char>>;

    /// The names, in ascending order.
    closed spec fn view(&self) -> Seq<Seq<char>> {
        names_of(self.names@)
    }
}

impl ServerNames {
    /// The invariant of the set: see [`names_sorted`].
    pub open spec fn wf(&self) -> bool {
        names_sorted(self@)
    }

    /// The empty set.
    pub fn new() -> (made: Self)
        ensures
            made.wf(),
            made@.len() == 0,
    {
        ServerNames { names: Vec::new() }
    }

    /// The number of names.
    pub fn len(&self) -> (n: usize)
        ensures
            n == self@.len(),
    {
        self.names.len()
    }

    /// Where `name` stands in the listing: the number of names before
    /// it, and whether the name at that place is `name` itself.
    fn position(&self, name: &str) -> (at: (usize, bool))
        requires
            self.wf(),
        ensures
            at.0 <= self@.len(),
            forall|j: int| 0 <= j < at.0 ==> name_before(#[trigger] self@[j], name@),
            forall|j: int| at.0 < j < self@.len() ==> name_before(name@, #[trigger] self@[j]),
            at.1 ==> at.0 < self@.len() && self@[at.0 as int] == name@,
            !at.1 && at.0 < self@.len() ==> name_before(name@, self@[at.0 as int]),
            at.1 == self@.contains(name@),
    {
        let mut i: usize = 0;
        let mut found = false;
        let mut stop = false;
        while i < self.names.len() && !stop
            invariant
                i <= self@.len(),
                forall|j: int| 0 <= j < i ==> name_before(#[trigger] self@[j], name@),
                found ==> stop,
                stop ==> i < self@.len(),
                stop && found ==> self@[i as int] == name@,
                stop && !found ==> name_before(name@, self@[i as int]),
            decreases self@.len() - i, if stop { 0int } else { 1int },
        {
            match compare_names(self.names[i].as_str(), name) {
                Rank::Before => {
                    i += 1;
                },
                Rank::Same => {
                    found = true;
                    stop = true;
                },
                Rank::After => {
                    stop = true;
                },
            }
        }
        proof {
            if i < self@.len() {
                assert(self@[i as int] == name@ || name_before(name@, self@[i as int]));
                assert forall|j: int| i < j < self@.len() implies name_before(
                    name@,
                    #[trigger] self@[j],
                ) by {
                    lemma_name_order(name@, self@[i as int], self@[j]);
                }
            }
            if self@.contains(name@) {
                let k = choose|k: int| 0 <= k < self@.len() && self@[k] == name@;
                lemma_name_order(name@, name@, name@);
                if k < i {
                    assert(name_before(self@[k], name@));
                } else if k > i {
                    assert(name_before(name@, self@[k]));
                }
            }
        }
        (i, found)
    }

    /// Whether `name` is in the set.
    pub fn contains(&self, name: &str) -> (found: bool)
        requires
            self.wf(),
        ensures
            found == self@.contains(name@),
    {
        self.position(name).1
    }

    /// Adds `name` to the set. Returns whether it was new.
    pub fn insert(&mut self, name: String) -> (added: bool)
        requires
            old(self).wf(),
        ensures
            final(self).wf(),
            added == !old(self)@.contains(name@),
            final(self)@.to_set() == old(self)@.to_set().insert(name@),
            added ==> final(self)@.len() == old(self)@.len() + 1,
            !added ==> final(self)@ == old(self)@,
    {
        let (i, found) = self.position(name.as_str());
        if found {
            proof {
                assert(old(self)@.to_set().insert(name@) =~= old(self)@.to_set());
            }
            return false;
        }
        let ghost text = name@;
        self.names.insert(i, name);
        proof {
            assert(self@ =~= old(self)@.insert(i as int, text));
            assert forall|a: int, b: int| 0 <= a < b < self@.len() implies name_before(
                #[trigger] self@[a],
                #[trigger] self@[b],
            ) by {
                if a < i && b > i {
                    assert(self@[a] == old(self)@[a]);
                    assert(self@[b] == old(self)@[b - 1]);
                } else if a < i && b < i {
                    assert(self@[a] == old(self)@[a]);
                    assert(self@[b] == old(self)@[b]);
                } else if a > i {
                    assert(self@[a] == old(self)@[a - 1]);
                    assert(self@[b] == old(self)@[b - 1]);
                } else if a == i {
                    assert(self@[b] == old(self)@[b - 1]);
                } else {
                    assert(self@[a] == old(self)@[a]);
                }
            }
            assert forall|n: Seq<char>| self@.to_set().contains(n) <==> old(self)@.to_set().insert(
                text,
            ).contains(n) by {
                if self@.contains(n) {
                    let k = choose|k: int| 0 <= k < self@.len() && self@[k] == n;
                    if k < i {
                        assert(old(self)@[k] == n);
                    } else if k > i {
                        assert(old(self)@[k - 1] == n);
                    }
                }
                if old(self)@.contains(n) {
                    let k = choose|k: int| 0 <= k < old(self)@.len() && old(self)@[k] == n;
                    if k < i {
                        assert(self@[k] == n);
                    } else {
                        assert(self@[k + 1] == n);
                    }
                }
                if n == text {
                    assert(self@[i as int] == n);
                }
            }
            assert(self@.to_set() =~= old(self)@.to_set().insert(text));
        }
        true
    }

    /// Takes `name` out of the set. Returns whether it was there.
    pub fn remove(&mut self, name: &str) -> (removed: bool)
        requires
            old(self).wf(),
        ensures
            final(self).wf(),
            removed == old(self)@.contains(name@),
            final(self)@.to_set() == old(self)@.to_set().remove(name@),
            !final(self)@.contains(name@),
    {
        let (i, found) = self.position(name);
        if !found {
            proof {
                assert(old(self)@.to_set().remove(name@) =~= old(self)@.to_set());
            }
            return false;
        }
        self.names.remove(i);
        proof {
            assert(self@ =~= old(self)@.remove(i as int));
            assert forall|a: int, b: int| 0 <= a < b < self@.len() implies name_before(
                #[trigger] self@[a],
                #[trigger] self@[b],
            ) by {
                let a0 = if a < i { a } else { a + 1 };
                let b0 = if b < i { b } else { b + 1 };
                assert(self@[a] == old(self)@[a0]);
                assert(self@[b] == old(self)@[b0]);
            }
            lemma_name_order(name@, name@, name@);
            assert forall|n: Seq<char>| self@.to_set().contains(n) <==> old(self)@.to_set().remove(
                name@,
            ).contains(n) by {
                if self@.contains(n) {
                    let k = choose|k: int| 0 <= k < self@.len() && self@[k] == n;
                    let k0 = if k < i { k } else { k + 1 };
                    assert(old(self)@[k0] == n);
                    if k0 < i {
                        assert(name_before(old(self)@[k0], name@));
                    } else {
                        assert(name_before(name@, old(self)@[k0]));
                    }
                }
                if old(self)@.contains(n) && n != name@ {
                    let k = choose|k: int| 0 <= k < old(self)@.len() && old(self)@[k] == n;
                    if k < i {
                        assert(self@[k] == n);
                    } else {
                        assert(self@[k - 1] == n);
                    }
                }
            }
            assert(self@.to_set() =~= old(self)@.to_set().remove(name@));
        }
        true
    }

    /// The names as a list, in ascending order.
    pub fn into_vec(self) -> (names: Vec<String>)
        ensures
            names_of(names@) == self@,
    {
        self.names
    }
}

/// The names among `neighbors` that `visited` does not hold, in the
/// order of `neighbors`.
pub open spec fn unvisited(neighbors: Seq<Seq<char>>, visited: Seq<Seq<char>>) -> Seq<Seq<char>> {
    neighbors.filter(|name: Seq<char>| !visited.contains(name))
}

/// One step of the walk through the network: takes note of what the
/// host answered to a scan of the server `host`.
///
/// A server that was visited before, or whose scan the host refused,
/// changes nothing. Otherwise its neighbours that were not visited yet
/// are added behind those still to visit, and the server itself is then
/// counted as visited.
pub fn visit(
    visited: &mut ServerNames,
    to_visit: &mut Vec<String>,
    host: String,
    neighbors: Option<Vec<String>>,
)
    requires
        old(visited).wf(),
    ensures
        final(visited).wf(),
        old(visited)@.contains(host@) || neighbors is None ==> {
            &&& final(visited)@ == old(visited)@
            &&& names_of(final(to_visit)@) == names_of(old(to_visit)@)
        },
        !old(visited)@.contains(host@) && neighbors is Some ==> {
            &&& final(visited)@.to_set() == old(visited)@.to_set().insert(host@)
            &&& final(visited)@.len() == old(visited)@.len() + 1
            &&& names_of(final(to_visit)@) == names_of(old(to_visit)@) + unvisited(
                names_of(neighbors->0@),
                old(visited)@,
            )
        },
{
    if visited.contains(host.as_str()) {
        return ;
    }
    let neighbors = match neighbors {
        Some(neighbors) => neighbors,
        None => {
            return ;
        },
    };
    let ghost seen = visited@;
    let ghost keep = |name: Seq<char>| !seen.contains(name);
    let mut j: usize = 0;
    proof {
        reveal(Seq::filter);
        assert(names_of(neighbors@).take(0) =~= Seq::<Seq<char>>::empty());
        assert(names_of(to_visit@) =~= names_of(old(to_visit)@) + names_of(neighbors@).take(
            0,
        ).filter(keep));
    }
    while j < neighbors.len()
        invariant
            j <= neighbors@.len(),
            visited.wf(),
            visited@ == seen,
            keep == |name: Seq<char>| !seen.contains(name),
            names_of(to_visit@) == names_of(old(to_visit)@) + names_of(neighbors@).take(
                j as int,
            ).filter(keep),
        decreases neighbors@.len() - j,
    {
        let ghost prefix = names_of(neighbors@).take(j as int);
        let ghost longer = names_of(neighbors@).take(j + 1);
        proof {
            reveal(Seq::filter);
            assert(longer.drop_last() =~= prefix);
            assert(longer.last() == neighbors@[j as int]@);
        }
        if !visited.contains(neighbors[j].as_str()) {
            let name = neighbors[j].clone();
            proof {
                assert(names_of(to_visit@.push(name)) =~= names_of(to_visit@).push(name@));
                assert(names_of(old(to_visit)@) + prefix.filter(keep).push(name@) =~= (names_of(
                    old(to_visit)@,
                ) + prefix.filter(keep)).push(name@));
            }
            to_visit.push(name);
        }
        j += 1;
    }
    proof {
        assert(names_of(neighbors@).take(j as int) =~= names_of(neighbors@));
    }
    visited.insert(host);
}

/// Whether the host answered a scan of the server `name` with `answer`.
pub open spec fn scan_answered<S: Shims>(
    ns: &NS<S>,
    name: Seq<char>,
    answer: Result<Vec<String>, BitburnerError>,
) -> bool {
    exists|host: &str|
        host@ == name && #[trigger] call_ensures(S::scan_shim, (&ns@, Some(host)), answer)
}

/// Whether the host answered a scan of the server `name` with the
/// servers `neighbors`.
pub open spec fn scanned<S: Shims>(ns: &NS<S>, name: Seq<char>, neighbors: Seq<Seq<char>>) -> bool {
    exists|answer: Vec<String>|
        names_of(answer@) == neighbors && #[trigger] scan_answered(
            ns,
            name,
            Ok::<Vec<String>, BitburnerError>(answer),
        )
}

/// Whether the host refused a scan of the server `name`.
pub open spec fn scan_refused<S: Shims>(ns: &NS<S>, name: Seq<char>) -> bool {
    exists|error: BitburnerError| #[trigger]
        scan_answered(ns, name, Err::<Vec<String>, BitburnerError>(error))
}

/// Whether the walk has dealt with the server `name`: it was visited, it
/// waits to be, or the host refused to scan it.
pub open spec fn accounted<S: Shims>(
    ns: &NS<S>,
    visited: Seq<Seq<char>>,
    waiting: Seq<Seq<char>>,
    name: Seq<char>,
) -> bool {
    visited.contains(name) || waiting.contains(name) || scan_refused(ns, name)
}

/// Whether the host answered a scan of the server `name` with
/// neighbours that the walk has all dealt with.
pub open spec fn neighbors_accounted<S: Shims>(
    ns: &NS<S>,
    visited: Seq<Seq<char>>,
    waiting: Seq<Seq<char>>,
    name: Seq<char>,
) -> bool {
    exists|neighbors: Seq<Seq<char>>| #[trigger]
        scanned(ns, name, neighbors) && forall|j: int|
            0 <= j < neighbors.len() ==> accounted(ns, visited, waiting, #[trigger] neighbors[j])
}

/// Whether the walk has explored what it visited: the host answered a
/// scan of every visited server, with neighbours that are visited too,
/// wait to be, or were refused. With no server waiting, the visited
/// servers are all that the host's answers lead to.
pub open spec fn explored<S: Shims>(
    ns: &NS<S>,
    visited: Seq<Seq<char>>,
    waiting: Seq<Seq<char>>,
) -> bool {
    forall|i: int|
        0 <= i < visited.len() ==> neighbors_accounted(ns, visited, waiting, #[trigger] visited[i])
}

/// What is kept of a sequence is in the sequence.
pub proof fn lemma_filter_within<A>(items: Seq<A>, keep: spec_fn(A) -> bool, i: int)
    requires
        0 <= i < items.filter(keep).len(),
    ensures
        items.contains(items.filter(keep)[i]),
    decreases items.len(),
{
    reveal(Seq::filter);
    if items.len() > 0 {
        let rest = items.drop_last();
        let kept = rest.filter(keep);
        if i < kept.len() {
            lemma_filter_within(rest, keep, i);
            let k = choose|k: int| 0 <= k < rest.len() && rest[k] == kept[i];
            assert(items[k] == kept[i]);
        } else {
            assert(items[items.len() - 1] == items.filter(keep)[i]);
        }
    }
}

/// Whether the walk was led to the server `name` by what it has
/// discovered: it is the server the walk began with, or the host named
/// it in its answer to a scan of a server in `order`.
pub open spec fn led_to<S: Shims>(
    ns: &NS<S>,
    order: Seq<Seq<char>>,
    first: Seq<char>,
    name: Seq<char>,
) -> bool {
    name == first || exists|j: int, neighbors: Seq<Seq<char>>|
        0 <= j < order.len() && #[trigger] scanned(ns, order[j], neighbors) && neighbors.contains(
            name,
        )
}

/// Whether `order` is an order in which the walk can have discovered
/// its servers: each is the server the walk began with, or the host
/// named it in its answer to a scan of a server that comes before it in
/// the order. So every server in the order is reached from the first by
/// a chain of scans.
pub open spec fn discovered<S: Shims>(
    ns: &NS<S>,
    order: Seq<Seq<char>>,
    first: Seq<char>,
) -> bool {
    forall|i: int|
        0 <= i < order.len() ==> led_to(ns, order.take(i), first, #[trigger] order[i])
}

/// Whether the walk was led to every server that waits to be visited.
pub open spec fn waiting_led_to<S: Shims>(
    ns: &NS<S>,
    order: Seq<Seq<char>>,
    waiting: Seq<Seq<char>>,
    first: Seq<char>,
) -> bool {
    forall|i: int| 0 <= i < waiting.len() ==> led_to(ns, order, first, #[trigger] waiting[i])
}

/// What led the walk to a server still leads to it when more servers
/// are discovered.
pub proof fn lemma_led_to_longer<S: Shims>(
    ns: &NS<S>,
    order: Seq<Seq<char>>,
    longer: Seq<Seq<char>>,
    first: Seq<char>,
    name: Seq<char>,
)
    requires
        led_to(ns, order, first, name),
        order.len() <= longer.len(),
        forall|j: int| 0 <= j < order.len() ==> longer[j] == order[j],
    ensures
        led_to(ns, longer, first, name),
{
    if name != first {
        let (j, neighbors) = choose|j: int, neighbors: Seq<Seq<char>>|
            0 <= j < order.len() && #[trigger] scanned(ns, order[j], neighbors)
                && neighbors.contains(name);
        assert(scanned(ns, longer[j], neighbors));
    }
}

/// Visiting the server that waits last keeps the order of discovery:
/// the walk was led to the server by those before it, and its scan
/// leads to its neighbours.
pub proof fn lemma_discovered_visit<S: Shims>(
    ns: &NS<S>,
    order: Seq<Seq<char>>,
    waiting: Seq<Seq<char>>,
    neighbors: Seq<Seq<char>>,
    first: Seq<char>,
)
    requires
        discovered(ns, order, first),
        waiting_led_to(ns, order, waiting, first),
        waiting.len() > 0,
        scanned(ns, waiting.last(), neighbors),
    ensures
        discovered(ns, order.push(waiting.last()), first),
        waiting_led_to(
            ns,
            order.push(waiting.last()),
            waiting.drop_last() + unvisited(neighbors, order),
            first,
        ),
{
    let host = waiting.last();
    let longer = order.push(host);
    let rest = waiting.drop_last();
    let added = unvisited(neighbors, order);
    let waiting_after = rest + added;
    assert forall|i: int| 0 <= i < longer.len() implies led_to(
        ns,
        longer.take(i),
        first,
        #[trigger] longer[i],
    ) by {
        if i < order.len() {
            assert(longer.take(i) =~= order.take(i));
            assert(longer[i] == order[i]);
        } else {
            assert(longer.take(i) =~= order);
            assert(waiting[waiting.len() - 1] == host);
        }
    }
    assert(scanned(ns, longer[order.len() as int], neighbors));
    assert forall|i: int| 0 <= i < waiting_after.len() implies led_to(
        ns,
        longer,
        first,
        #[trigger] waiting_after[i],
    ) by {
        if i < rest.len() {
            assert(waiting_after[i] == waiting[i]);
            lemma_led_to_longer(ns, order, longer, first, waiting[i]);
        } else {
            let keep = |name: Seq<char>| !order.contains(name);
            let j = i - rest.len();
            assert(waiting_after[i] == added[j]);
            lemma_filter_within(neighbors, keep, j);
            assert(neighbors.contains(added[j]));
        }
    }
}

/// A server that waits last can leave the waiting servers once it was
/// visited or refused: what was dealt with stays dealt with.
pub proof fn lemma_explored_skip<S: Shims>(
    ns: &NS<S>,
    visited: Seq<Seq<char>>,
    waiting: Seq<Seq<char>>,
    first: Seq<char>,
)
    requires
        explored(ns, visited, waiting),
        accounted(ns, visited, waiting, first),
        waiting.len() > 0,
        visited.contains(waiting.last()) || scan_refused(ns, waiting.last()),
    ensures
        explored(ns, visited, waiting.drop_last()),
        accounted(ns, visited, waiting.drop_last(), first),
{
    let rest = waiting.drop_last();
    assert forall|name: Seq<char>| accounted(ns, visited, waiting, name) implies accounted(
        ns,
        visited,
        rest,
        name,
    ) by {
        if waiting.contains(name) {
            let k = choose|k: int| 0 <= k < waiting.len() && waiting[k] == name;
            if k < rest.len() {
                assert(rest[k] == name);
            }
        }
    }
    assert forall|i: int| 0 <= i < visited.len() implies neighbors_accounted(
        ns,
        visited,
        rest,
        #[trigger] visited[i],
    ) by {
        assert(neighbors_accounted(ns, visited, waiting, visited[i]));
        let neighbors = choose|neighbors: Seq<Seq<char>>| #[trigger]
            scanned(ns, visited[i], neighbors) && forall|j: int|
                0 <= j < neighbors.len() ==> accounted(
                    ns,
                    visited,
                    waiting,
                    #[trigger] neighbors[j],
                );
        assert forall|j: int| 0 <= j < neighbors.len() implies accounted(
            ns,
            visited,
            rest,
            #[trigger] neighbors[j],
        ) by {
            assert(accounted(ns, visited, waiting, neighbors[j]));
        }
    }
}

/// A server that waits last, and whose scan the host answered, can be
/// visited: with the server among the visited ones, and its unvisited
/// neighbours waiting in its place, what was dealt with stays dealt
/// with, and the server's neighbours are dealt with too.
pub proof fn lemma_explored_visit<S: Shims>(
    ns: &NS<S>,
    visited: Seq<Seq<char>>,
    waiting: Seq<Seq<char>>,
    neighbors: Seq<Seq<char>>,
    visited_after: Seq<Seq<char>>,
    first: Seq<char>,
)
    requires
        explored(ns, visited, waiting),
        accounted(ns, visited, waiting, first),
        waiting.len() > 0,
        scanned(ns, waiting.last(), neighbors),
        visited_after.to_set() == visited.to_set().insert(waiting.last()),
    ensures
        explored(ns, visited_after, waiting.drop_last() + unvisited(neighbors, visited)),
        accounted(ns, visited_after, waiting.drop_last() + unvisited(neighbors, visited), first),
{
    let host = waiting.last();
    let rest = waiting.drop_last();
    let waiting_after = rest + unvisited(neighbors, visited);
    assert forall|name: Seq<char>| visited.contains(name) || name == host implies #[trigger]
        visited_after.contains(name) by {
        assert(visited.to_set().insert(host).contains(name));
        assert(visited_after.to_set().contains(name));
    }
    assert forall|name: Seq<char>| accounted(ns, visited, waiting, name) implies accounted(
        ns,
        visited_after,
        waiting_after,
        name,
    ) by {
        if visited.contains(name) {
            assert(visited_after.contains(name));
        } else if waiting.contains(name) {
            let k = choose|k: int| 0 <= k < waiting.len() && waiting[k] == name;
            if k < rest.len() {
                assert(waiting_after[k] == name);
            } else {
                assert(visited_after.contains(name));
            }
        }
    }
    assert forall|j: int| 0 <= j < neighbors.len() implies accounted(
        ns,
        visited_after,
        waiting_after,
        #[trigger] neighbors[j],
    ) by {
        if visited.contains(neighbors[j]) {
            assert(visited_after.contains(neighbors[j]));
        } else {
            let keep = |name: Seq<char>| !visited.contains(name);
            neighbors.lemma_filter_contains(keep, j);
            let k = choose|k: int|
                0 <= k < unvisited(neighbors, visited).len() && unvisited(neighbors, visited)[k]
                    == neighbors[j];
            assert(waiting_after[rest.len() + k] == neighbors[j]);
        }
    }
    assert forall|i: int| 0 <= i < visited_after.len() implies neighbors_accounted(
        ns,
        visited_after,
        waiting_after,
        #[trigger] visited_after[i],
    ) by {
        let name = visited_after[i];
        assert(visited_after.to_set().contains(name));
        assert(visited.to_set().insert(host).contains(name));
        if name == host {
            assert(scanned(ns, name, neighbors));
        } else {
            assert(visited.contains(name));
            let k = choose|k: int| 0 <= k < visited.len() && visited[k] == name;
            assert(neighbors_accounted(ns, visited, waiting, visited[k]));
            let known = choose|known: Seq<Seq<char>>| #[trigger]
                scanned(ns, name, known) && forall|j: int|
                    0 <= j < known.len() ==> accounted(ns, visited, waiting, #[trigger] known[j]);
            assert forall|j: int| 0 <= j < known.len() implies accounted(
                ns,
                visited_after,
                waiting_after,
                #[trigger] known[j],
            ) by {
                assert(accounted(ns, visited, waiting, known[j]));
            }
        }
    }
}

/// Whether `names` are the servers that a walk from the server `first`
/// finds, as [`find_all_server_names`] says: the servers of an order of
/// discovery that begins at `first` and that the walk has explored with
/// none left waiting, to which `first` belongs unless its scan was
/// refused; less `home`, where that is not asked for.
pub open spec fn servers_found<S: Shims>(
    ns: &NS<S>,
    first: Seq<char>,
    with_home: bool,
    names: Seq<Seq<char>>,
) -> bool {
    exists|order: Seq<Seq<char>>|
        {
            &&& #[trigger] explored(ns, order, Seq::<Seq<char>>::empty())
            &&& discovered(ns, order, first)
            &&& accounted(ns, order, Seq::<Seq<char>>::empty(), first)
            &&& names.to_set() == if with_home {
                order.to_set()
            } else {
                order.to_set().remove("home"@)
            }
        }
}

/// The names of the servers that can be reached from `first_host`, in
/// ascending order and each once; without the name `home` unless
/// `with_home` is set.
///
/// The network is explored by scanning `first_host`, then the servers
/// its scan names, and so on. A server whose scan the host refuses is
/// left out.
///
/// So the names returned are those that [`servers_found`] describes:
/// each was reached from `first_host` by a chain of scans that the host
/// answered, and every server that such a scan names is among them
/// unless its own scan was refused.
pub fn find_all_server_names<S: Shims>(ns: &NS<S>, first_host: &str, with_home: bool) -> (names: Vec<
    String,
>)
    ensures
        names_sorted(names_of(names@)),
        !with_home ==> !names_of(names@).contains("home"@),
        servers_found(ns, first_host@, with_home, names_of(names@)),
{
    let mut to_visit: Vec<String> = Vec::new();
    to_visit.push(first_host.to_owned());
    let mut visited = ServerNames::new();
    let mut known: usize = 0;
    let ghost mut order: Seq<Seq<char>> = Seq::empty();
    proof {
        assert(names_of(to_visit@)[0] == first_host@);
        assert(order.to_set() =~= visited@.to_set());
    }
    while to_visit.len() > 0
        invariant
            visited.wf(),
            known == visited@.len(),
            order.to_set() == visited@.to_set(),
            explored(ns, order, names_of(to_visit@)),
            discovered(ns, order, first_host@),
            waiting_led_to(ns, order, names_of(to_visit@), first_host@),
            accounted(ns, order, names_of(to_visit@), first_host@),
        decreases usize::MAX - visited@.len(), to_visit@.len(),
    {
        let ghost waiting = names_of(to_visit@);
        let ghost seen = order;
        let host = to_visit.pop().unwrap();
        proof {
            assert(names_of(to_visit@) =~= waiting.drop_last());
            assert(waiting.last() == host@);
            assert forall|i: int| 0 <= i < waiting.drop_last().len() implies led_to(
                ns,
                seen,
                first_host@,
                #[trigger] waiting.drop_last()[i],
            ) by {
                assert(waiting.drop_last()[i] == waiting[i]);
            }
            assert(seen.to_set().contains(host@) == visited@.to_set().contains(host@));
        }
        if visited.contains(host.as_str()) {
            proof {
                lemma_explored_skip(ns, seen, waiting, first_host@);
            }
            continue ;
        }
        let name = host.as_str();
        let neighbors = match ns.scan(Some(name)) {
            Ok(neighbors) => {
                proof {
                    assert(scan_answered(
                        ns,
                        host@,
                        Ok::<Vec<String>, BitburnerError>(neighbors),
                    ));
                    assert(scanned(ns, host@, names_of(neighbors@)));
                }
                Some(neighbors)
            },
            Err(error) => {
                proof {
                    assert(scan_answered(ns, host@, Err::<Vec<String>, BitburnerError>(error)));
                    lemma_explored_skip(ns, seen, waiting, first_host@);
                }
                None
            },
        };
        let ghost answered = neighbors;
        let ghost sorted = visited@;
        visit(&mut visited, &mut to_visit, host, neighbors);
        known = visited.len();
        proof {
            assert(names_of(to_visit@).len() == to_visit@.len());
            if answered is Some {
                let reported = names_of(answered->0@);
                order = seen.push(waiting.last());
                assert forall|name: Seq<char>| order.to_set().contains(name) == seen.to_set().insert(
                    waiting.last(),
                ).contains(name) by {
                    if order.contains(name) {
                        let at = choose|at: int| 0 <= at < order.len() && order[at] == name;
                        if at < seen.len() {
                            assert(seen[at] == name);
                        }
                    }
                    if seen.contains(name) {
                        let at = choose|at: int| 0 <= at < seen.len() && seen[at] == name;
                        assert(order[at] == name);
                    }
                    if name == waiting.last() {
                        assert(order[seen.len() as int] == name);
                    }
                }
                assert(order.to_set() =~= seen.to_set().insert(waiting.last()));
                assert(unvisited(reported, sorted) =~= unvisited(reported, seen)) by {
                    assert forall|name: Seq<char>| sorted.contains(name) == seen.contains(
                        name,
                    ) by {
                        assert(sorted.to_set().contains(name) == seen.to_set().contains(name));
                    }
                    assert((|name: Seq<char>| !sorted.contains(name)) =~= (|name: Seq<char>|
                        !seen.contains(name)));
                }
                lemma_discovered_visit(ns, seen, waiting, reported, first_host@);
                lemma_explored_visit(ns, seen, waiting, reported, order, first_host@);
            }
        }
    }
    proof {
        assert(names_of(to_visit@) =~= Seq::<Seq<char>>::empty());
        assert(explored(ns, order, Seq::<Seq<char>>::empty()));
    }
    if !with_home {
        visited.remove("home");
    }
    let names = visited.into_vec();
    proof {
        assert(servers_found(ns, first_host@, with_home, names_of(names@)));
    }
    names
}

/// A server with the rate at which money can be made from it.
#[derive(Debug)]
pub struct RatedServer {
    pub name: String,
    pub rate: F64Total,
}

/// A rated server as plain values: the rank of its rate in the total
/// order, and its name.
pub type Rated = (int, Seq<char>);

/// The rated servers of a list as plain values, in the same order.
pub open spec fn rated_of(servers: Seq<RatedServer>) -> Seq<Rated> {
    servers.map_values(|server: RatedServer| (server.rate.key(), server.name@))
}

/// How many entries at the front of the list have a rate of at least
/// `rate`.
pub open spec fn leading_at_least(ranked: Seq<Rated>, rate: int) -> int
    decreases ranked.len(),
{
    if ranked.len() == 0 || ranked[0].0 < rate {
        0
    } else {
        1 + leading_at_least(ranked.drop_first(), rate)
    }
}

/// The servers ranked by rate, highest first; servers of equal rate keep
/// the order they came in.
pub open spec fn ranked(servers: Seq<Rated>) -> Seq<Rated>
    decreases servers.len(),
{
    if servers.len() == 0 {
        Seq::empty()
    } else {
        let before = ranked(servers.drop_last());
        before.insert(leading_at_least(before, servers.last().0), servers.last())
    }
}

/// Rates that never rise along the list.
pub open spec fn rates_descend(ranked: Seq<Rated>) -> bool {
    forall|i: int, j: int|
        0 <= i < j < ranked.len() ==> (#[trigger] ranked[i]).0 >= (#[trigger] ranked[j]).0
}

/// The count of leading entries with at least a rate is the place where
/// the entries stop having it.
pub proof fn lemma_leading_at_least(ranked: Seq<Rated>, rate: int, i: int)
    requires
        0 <= i <= ranked.len(),
        forall|j: int| 0 <= j < i ==> (#[trigger] ranked[j]).0 >= rate,
        i < ranked.len() ==> ranked[i].0 < rate,
    ensures
        leading_at_least(ranked, rate) == i,
    decreases ranked.len(),
{
    if ranked.len() == 0 || ranked[0].0 < rate {
        if i > 0 {
            assert(ranked[0].0 >= rate);
        }
    } else {
        let rest = ranked.drop_first();
        assert forall|j: int| 0 <= j < i - 1 implies (#[trigger] rest[j]).0 >= rate by {
            assert(rest[j] == ranked[j + 1]);
        }
        lemma_leading_at_least(rest, rate, i - 1);
    }
}

/// In a list of descending rates, the entries with at least a rate are
/// exactly the leading ones.
pub proof fn lemma_leading_at_least_splits(ranked: Seq<Rated>, rate: int)
    requires
        rates_descend(ranked),
    ensures
        0 <= leading_at_least(ranked, rate) <= ranked.len(),
        forall|j: int|
            0 <= j < leading_at_least(ranked, rate) ==> (#[trigger] ranked[j]).0 >= rate,
        forall|j: int|
            leading_at_least(ranked, rate) <= j < ranked.len() ==> (#[trigger] ranked[j]).0 < rate,
    decreases ranked.len(),
{
    if ranked.len() == 0 || ranked[0].0 < rate {
        assert forall|j: int| 0 <= j < ranked.len() implies (#[trigger] ranked[j]).0 < rate by {
            if j > 0 {
                assert(ranked[0].0 >= ranked[j].0);
            }
        }
    } else {
        let rest = ranked.drop_first();
        assert forall|a: int, b: int| 0 <= a < b < rest.len() implies (#[trigger] rest[a]).0 >= (
        #[trigger] rest[b]).0 by {
            assert(rest[a] == ranked[a + 1]);
            assert(rest[b] == ranked[b + 1]);
        }
        lemma_leading_at_least_splits(rest, rate);
        let k = leading_at_least(rest, rate);
        assert forall|j: int| 0 <= j < k + 1 implies (#[trigger] ranked[j]).0 >= rate by {
            if j > 0 {
                assert(ranked[j] == rest[j - 1]);
            }
        }
        assert forall|j: int| k + 1 <= j < ranked.len() implies (#[trigger] ranked[j]).0
            < rate by {
            assert(ranked[j] == rest[j - 1]);
        }
    }
}

/// Ranking yields descending rates and keeps every server: the ranked
/// list holds what the list held, each as often.
pub proof fn lemma_ranked(servers: Seq<Rated>)
    ensures
        rates_descend(ranked(servers)),
        ranked(servers).len() == servers.len(),
        ranked(servers).to_multiset() == servers.to_multiset(),
    decreases servers.len(),
{
    broadcast use vstd::seq_lib::group_to_multiset_ensures;

    if servers.len() == 0 {
        assert(ranked(servers).to_multiset() =~= servers.to_multiset());
    } else {
        let before = ranked(servers.drop_last());
        let last = servers.last();
        lemma_ranked(servers.drop_last());
        lemma_leading_at_least_splits(before, last.0);
        let at = leading_at_least(before, last.0);
        let after = before.insert(at, last);
        assert forall|i: int, j: int| 0 <= i < j < after.len() implies (#[trigger] after[i]).0 >= (
        #[trigger] after[j]).0 by {
            if i < at {
                assert(after[i] == before[i]);
            } else if i > at {
                assert(after[i] == before[i - 1]);
            }
            if j < at {
                assert(after[j] == before[j]);
            } else if j > at {
                assert(after[j] == before[j - 1]);
            }
        }
        before.to_multiset_ensures();
        assert(after.to_multiset() =~= before.to_multiset().insert(last));
        assert(servers =~= servers.drop_last().push(last));
        servers.drop_last().to_multiset_ensures();
        assert(servers.to_multiset() =~= servers.drop_last().to_multiset().insert(last));
    }
}

/// Ranking servers with different names leaves the names different.
pub proof fn lemma_ranked_names_differ(servers: Seq<Rated>)
    requires
        forall|i: int, j: int|
            0 <= i < j < servers.len() ==> (#[trigger] servers[i]).1 != (#[trigger] servers[j]).1,
    ensures
        forall|i: int, j: int|
            0 <= i < j < ranked(servers).len() ==> (#[trigger] ranked(servers)[i]).1 != (
            #[trigger] ranked(servers)[j]).1,
    decreases servers.len(),
{
    if servers.len() > 0 {
        let rest = servers.drop_last();
        let before = ranked(rest);
        let last = servers.last();
        assert forall|i: int, j: int| 0 <= i < j < rest.len() implies (#[trigger] rest[i]).1 != (
        #[trigger] rest[j]).1 by {
            assert(rest[i] == servers[i]);
            assert(rest[j] == servers[j]);
        }
        lemma_ranked_names_differ(rest);
        lemma_ranked(rest);
        lemma_leading_at_least_splits(before, last.0);
        let at = leading_at_least(before, last.0);
        let after = before.insert(at, last);
        assert forall|m: int| 0 <= m < before.len() implies (#[trigger] before[m]).1 != last.1 by {
            before.to_multiset_ensures();
            rest.to_multiset_ensures();
            assert(before.contains(before[m]));
            assert(before.to_multiset().count(before[m]) > 0);
            assert(rest.to_multiset().count(before[m]) > 0);
            assert(rest.contains(before[m]));
            let n = choose|n: int| 0 <= n < rest.len() && rest[n] == before[m];
            assert(rest[n] == servers[n]);
            assert(servers[n].1 != servers[servers.len() - 1].1);
        }
        assert forall|i: int, j: int| 0 <= i < j < after.len() implies (#[trigger] after[i]).1 != (
        #[trigger] after[j]).1 by {
            let i0 = if i < at { i } else { i - 1 };
            let j0 = if j < at { j } else { j - 1 };
            if i != at {
                assert(after[i] == before[i0]);
            }
            if j != at {
                assert(after[j] == before[j0]);
            }
        }
    }
}

/// Ranks servers by rate, highest first; servers of equal rate keep the
/// order they came in. Returns the names.
pub fn rank_by_rate(servers: &Vec<RatedServer>) -> (names: Vec<String>)
    ensures
        names_of(names@) == ranked(rated_of(servers@)).map_values(|server: Rated| server.1),
{
    let mut rates: Vec<F64Total> = Vec::new();
    let mut names: Vec<String> = Vec::new();
    let mut k: usize = 0;
    let ghost mut placed: Seq<Rated> = Seq::empty();
    proof {
        assert(rated_of(servers@).take(0) =~= Seq::<Rated>::empty());
        assert(names_of(names@) =~= placed.map_values(|server: Rated| server.1));
    }
    while k < servers.len()
        invariant
            k <= servers@.len(),
            placed == ranked(rated_of(servers@).take(k as int)),
            rates@.len() == placed.len(),
            names@.len() == placed.len(),
            forall|j: int| 0 <= j < placed.len() ==> (#[trigger] placed[j]).0 == rates@[j].key(),
            forall|j: int| 0 <= j < placed.len() ==> (#[trigger] placed[j]).1 == names@[j]@,
        decreases servers@.len() - k,
    {
        let rate = servers[k].rate;
        let mut i: usize = 0;
        while i < rates.len() && rate.total_le(&rates[i])
            invariant
                i <= rates@.len(),
                rates@.len() == placed.len(),
                forall|j: int| 0 <= j < placed.len() ==> (#[trigger] placed[j]).0 == rates@[j].key(),
                forall|j: int| 0 <= j < i ==> (#[trigger] placed[j]).0 >= rate.key(),
            decreases rates@.len() - i,
        {
            i += 1;
        }
        let name = servers[k].name.clone();
        proof {
            lemma_leading_at_least(placed, rate.key(), i as int);
            let longer = rated_of(servers@).take(k + 1);
            assert(longer.drop_last() =~= rated_of(servers@).take(k as int));
            assert(longer.last() == (rate.key(), name@));
            placed = placed.insert(i as int, (rate.key(), name@));
        }
        rates.insert(i, rate);
        names.insert(i, name);
        k += 1;
    }
    proof {
        assert(rated_of(servers@).take(k as int) =~= rated_of(servers@));
        assert(names_of(names@) =~= placed.map_values(|server: Rated| server.1));
    }
    names
}

/// Whether a server can be hacked, given what the host answered on
/// root access to it and on the hacking level it requires, and the
/// player's hacking level: the script has root access, and the level
/// required is no higher than the player's. A server on which the host
/// refuses to answer counts as not hackable.
pub open spec fn hackable<E>(
    root_access: Result<bool, E>,
    required_level: Result<u32, E>,
    hacking_level: u32,
) -> bool {
    &&& root_access matches Ok(granted) && granted
    &&& required_level matches Ok(level) && level <= hacking_level
}

/// Computes [`hackable`].
pub fn is_hackable<E>(
    root_access: &Result<bool, E>,
    required_level: &Result<u32, E>,
    hacking_level: u32,
) -> (can_hack: bool)
    ensures
        can_hack == hackable(*root_access, *required_level, hacking_level),
{
    let granted = match root_access {
        Ok(granted) => *granted,
        Err(_) => false,
    };
    let low_enough = match required_level {
        Ok(level) => *level <= hacking_level,
        Err(_) => false,
    };
    granted && low_enough
}

/// Whether the host's answers on the server `name` make it hackable at
/// the hacking level `hacking_level`.
pub open spec fn hackable_answered<S: Shims>(
    ns: &NS<S>,
    name: Seq<char>,
    hacking_level: u32,
) -> bool {
    exists|host: &str, root_access: Result<bool, BitburnerError>, required_level: Result<
        u32,
        BitburnerError,
    >|
        {
            &&& host@ == name
            &&& #[trigger] call_ensures(S::has_root_access_shim, (&ns@, host), root_access)
            &&& #[trigger] call_ensures(
                S::get_server_required_hacking_level_shim,
                (&ns@, host),
                required_level,
            )
            &&& hackable(root_access, required_level, hacking_level)
        }
}

/// Whether `rate` gave the server its rate.
pub open spec fn rate_answered<R: Fn(&str) -> F64Total>(rate: R, server: Rated) -> bool {
    exists|host: &str, value: F64Total|
        host@ == server.1 && value.key() == server.0 && #[trigger] rate.ensures((host,), value)
}

/// Whether the host was asked about the server `name`, and its answers
/// make the server hackable at the hacking level `hacking_level`
/// exactly where `is_hackable` is set.
pub open spec fn hackable_asked<S: Shims>(
    ns: &NS<S>,
    name: Seq<char>,
    hacking_level: u32,
    is_hackable: bool,
) -> bool {
    exists|host: &str, root_access: Result<bool, BitburnerError>, required_level: Result<
        u32,
        BitburnerError,
    >|
        {
            &&& host@ == name
            &&& #[trigger] call_ensures(S::has_root_access_shim, (&ns@, host), root_access)
            &&& #[trigger] call_ensures(
                S::get_server_required_hacking_level_shim,
                (&ns@, host),
                required_level,
            )
            &&& is_hackable == hackable(root_access, required_level, hacking_level)
        }
}

/// Whether one of the rated servers has the name `name`.
pub open spec fn is_listed(servers: Seq<Rated>, name: Seq<char>) -> bool {
    exists|m: int| 0 <= m < servers.len() && (#[trigger] servers[m]).1 == name
}

/// The names of the ranked servers are the names of the servers.
pub proof fn lemma_ranked_lists_same(servers: Seq<Rated>, name: Seq<char>)
    ensures
        ranked(servers).map_values(|server: Rated| server.1).contains(name) <==> is_listed(
            servers,
            name,
        ),
{
    let order = ranked(servers);
    let names = order.map_values(|server: Rated| server.1);
    lemma_ranked(servers);
    order.to_multiset_ensures();
    servers.to_multiset_ensures();
    if names.contains(name) {
        let j = choose|j: int| 0 <= j < names.len() && names[j] == name;
        assert(order[j].1 == name);
        assert(order.contains(order[j]));
        assert(order.to_multiset().count(order[j]) > 0);
        assert(servers.to_multiset().count(order[j]) > 0);
        assert(servers.contains(order[j]));
        let m = choose|m: int| 0 <= m < servers.len() && servers[m] == order[j];
        assert(servers[m].1 == name);
    }
    if is_listed(servers, name) {
        let m = choose|m: int| 0 <= m < servers.len() && (#[trigger] servers[m]).1 == name;
        assert(servers.contains(servers[m]));
        assert(servers.to_multiset().count(servers[m]) > 0);
        assert(order.to_multiset().count(servers[m]) > 0);
        assert(order.contains(servers[m]));
        let j = choose|j: int| 0 <= j < order.len() && order[j] == servers[m];
        assert(names[j] == name);
    }
}

/// Whether `names` are the hackable servers as
/// [`find_hackable_servers`] finds them: none is named twice, `home` is
/// not among them, and they are the [`ranked`] names of servers that the
/// host's answers make hackable at the hacking level it gave, each with
/// the rate that `rate` gave it. And none is left out: of the servers
/// that a walk from `home` finds, the host was asked about each, and
/// those that its answers make hackable are the ones named.
pub open spec fn hackable_found<S: Shims, R: Fn(&str) -> F64Total>(
    ns: &NS<S>,
    rate: R,
    names: Seq<Seq<char>>,
) -> bool {
    &&& !names.contains("home"@)
    &&& names.no_duplicates()
    &&& exists|hacking_level: u32, servers: Seq<Rated>, found: Seq<Seq<char>>|
        {
            &&& #[trigger] call_ensures(S::get_hacking_level_shim, (&ns@,), hacking_level)
            &&& names == (#[trigger] ranked(servers)).map_values(|server: Rated| server.1)
            &&& forall|i: int|
                0 <= i < servers.len() ==> hackable_answered(
                    ns,
                    (#[trigger] servers[i]).1,
                    hacking_level,
                ) && rate_answered(rate, servers[i])
            &&& #[trigger] servers_found(ns, "home"@, false, found)
            &&& forall|i: int|
                0 <= i < found.len() ==> #[trigger] hackable_asked(
                    ns,
                    found[i],
                    hacking_level,
                    names.contains(found[i]),
                )
        }
}

/// The servers that can be hacked, the one that makes the most money
/// first.
///
/// The network is explored from `home`, which is left out itself. Of
/// each server found the host is asked for the root access and the
/// level required, and `rate` for the rate at which it makes money;
/// the hackable ones are ranked by that rate as [`rank_by_rate`] does.
/// No server is named twice.
///
/// So the names returned are what [`hackable_found`] describes: the
/// [`ranked`] names of the servers found from `home` that the host's
/// answers make hackable at the hacking level it gave, all of them, each
/// with the rate that `rate` gave it.
pub fn find_hackable_servers<S: Shims, R: Fn(&str) -> F64Total>(ns: &NS<S>, rate: &R) -> (names: Vec<
    String,
>)
    requires
        forall|name: &str| rate.requires((name,)),
    ensures
        hackable_found(ns, *rate, names_of(names@)),
        !names_of(names@).contains("home"@),
        names_of(names@).no_duplicates(),
{
    let hacking_level = ns.get_hacking_level();
    let all = find_all_server_names(ns, "home", false);
    let ghost found = names_of(all@);
    let mut hackable_servers: Vec<RatedServer> = Vec::new();
    let mut k: usize = 0;
    while k < all.len()
        invariant
            k <= all@.len(),
            found == names_of(all@),
            forall|j: int|
                0 <= j < k ==> #[trigger] hackable_asked(
                    ns,
                    found[j],
                    hacking_level,
                    is_listed(rated_of(hackable_servers@), found[j]),
                ),
            names_sorted(names_of(all@)),
            !names_of(all@).contains("home"@),
            forall|name: &str| rate.requires((name,)),
            forall|j: int|
                0 <= j < hackable_servers@.len() ==> (#[trigger] hackable_servers@[j]).name@
                    != "home"@,
            forall|j: int, m: int|
                0 <= j < hackable_servers@.len() && k <= m < all@.len() ==> name_before(
                    (#[trigger] hackable_servers@[j]).name@,
                    #[trigger] names_of(all@)[m],
                ),
            forall|i: int, j: int|
                0 <= i < j < hackable_servers@.len() ==> (#[trigger] hackable_servers@[i]).name@
                    != (#[trigger] hackable_servers@[j]).name@,
            forall|j: int|
                0 <= j < hackable_servers@.len() ==> hackable_answered(
                    ns,
                    (#[trigger] rated_of(hackable_servers@)[j]).1,
                    hacking_level,
                ) && rate_answered(*rate, rated_of(hackable_servers@)[j]),
        decreases all@.len() - k,
    {
        let host = all[k].as_str();
        let root_access = ns.has_root_access(host);
        let required_level = ns.get_server_required_hacking_level(host);
        let ghost before = rated_of(hackable_servers@);
        let can_hack = is_hackable(&root_access, &required_level, hacking_level);
        proof {
            assert(found[k as int] == host@);
            assert(hackable_asked(ns, found[k as int], hacking_level, can_hack));
            assert forall|m: int| 0 <= m < before.len() implies (#[trigger] before[m]).1
                != found[k as int] by {
                assert(name_before(hackable_servers@[m].name@, names_of(all@)[k as int]));
                lemma_name_order(found[k as int], found[k as int], found[k as int]);
            }
            assert(!is_listed(before, found[k as int]));
        }
        if can_hack {
            let ghost listed = rated_of(hackable_servers@);
            proof {
                assert(hackable_answered(ns, all@[k as int]@, hacking_level));
                assert(names_of(all@)[k as int] == all@[k as int]@);
                assert forall|j: int| 0 <= j < hackable_servers@.len() implies (
                #[trigger] hackable_servers@[j]).name@ != all@[k as int]@ by {
                    assert(name_before(hackable_servers@[j].name@, names_of(all@)[k as int]));
                    lemma_name_order(all@[k as int]@, all@[k as int]@, all@[k as int]@);
                }
                assert forall|m: int| k + 1 <= m < all@.len() implies name_before(
                    all@[k as int]@,
                    #[trigger] names_of(all@)[m],
                ) by {
                    assert(name_before(names_of(all@)[k as int], names_of(all@)[m]));
                }
            }
            let server = RatedServer { name: all[k].clone(), rate: rate(host) };
            proof {
                assert(rate_answered(*rate, (server.rate.key(), server.name@)));
                assert(rated_of(hackable_servers@.push(server)) =~= listed.push(
                    (server.rate.key(), server.name@),
                ));
            }
            hackable_servers.push(server);
            proof {
                let after = rated_of(hackable_servers@);
                assert(after[before.len() as int].1 == found[k as int]);
                assert(is_listed(after, found[k as int]));
                assert forall|j: int| 0 <= j < k implies #[trigger] hackable_asked(
                    ns,
                    found[j],
                    hacking_level,
                    is_listed(after, found[j]),
                ) by {
                    assert(hackable_asked(ns, found[j], hacking_level, is_listed(before, found[j])));
                    assert(name_before(found[j], found[k as int]));
                    lemma_name_order(found[k as int], found[k as int], found[k as int]);
                    if is_listed(before, found[j]) {
                        let m = choose|m: int|
                            0 <= m < before.len() && (#[trigger] before[m]).1 == found[j];
                        assert(after[m].1 == found[j]);
                    }
                    if is_listed(after, found[j]) {
                        let m = choose|m: int|
                            0 <= m < after.len() && (#[trigger] after[m]).1 == found[j];
                        assert(m < before.len());
                        assert(before[m].1 == found[j]);
                    }
                }
            }
        }
        k += 1;
    }
    let names = rank_by_rate(&hackable_servers);
    proof {
        assert forall|i: int| 0 <= i < found.len() implies #[trigger] hackable_asked(
            ns,
            found[i],
            hacking_level,
            names_of(names@).contains(found[i]),
        ) by {
            lemma_ranked_lists_same(rated_of(hackable_servers@), found[i]);
            assert(hackable_asked(
                ns,
                found[i],
                hacking_level,
                is_listed(rated_of(hackable_servers@), found[i]),
            ));
        }
        let listed = ranked(rated_of(hackable_servers@));
        lemma_ranked(rated_of(hackable_servers@));
        assert forall|i: int, j: int| 0 <= i < j < rated_of(hackable_servers@).len() implies (
        #[trigger] rated_of(hackable_servers@)[i]).1 != (#[trigger] rated_of(
            hackable_servers@,
        )[j]).1 by {
            assert(hackable_servers@[i].name@ != hackable_servers@[j].name@);
        }
        lemma_ranked_names_differ(rated_of(hackable_servers@));
        assert forall|i: int, j: int|
            0 <= i < names_of(names@).len() && 0 <= j < names_of(names@).len() && i
                != j implies names_of(names@)[i] != names_of(names@)[j] by {
            assert(names_of(names@)[i] == listed[i].1);
            assert(names_of(names@)[j] == listed[j].1);
            if i < j {
                assert(listed[i].1 != listed[j].1);
            } else {
                assert(listed[j].1 != listed[i].1);
            }
        }
        if names_of(names@).contains("home"@) {
            let j = choose|j: int| 0 <= j < names_of(names@).len() && names_of(names@)[j] == "home"@;
            assert(listed[j].1 == "home"@);
            assert(listed.to_multiset().count(listed[j]) > 0) by {
                listed.to_multiset_ensures();
                assert(listed.contains(listed[j]));
            }
            assert(rated_of(hackable_servers@).contains(listed[j])) by {
                rated_of(hackable_servers@).to_multiset_ensures();
            }
            let m = choose|m: int|
                0 <= m < rated_of(hackable_servers@).len() && rated_of(hackable_servers@)[m]
                    == listed[j];
            assert(hackable_servers@[m].name@ == "home"@);
        }
    }
    names
}

} // verus!
