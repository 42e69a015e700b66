//! Changing the peers of a configuration: adding one, replacing the first of
//! a public key, removing all of a public key.

use vstd::prelude::*;
use crate::model::{peer_views, ConfigView, Peer, PeerError, PeerView, WgConfig};

verus! {

/// The position of the first peer in `peers` whose public key is `key`, or the
/// length of `peers` where no peer has it.
pub open spec fn first_match(peers: Seq<PeerView>, key: Seq<char>) -> nat
    decreases peers.len(),
{
    if peers.len() == 0 || peers[0].public_key == key {
        0
    } else {
        1 + first_match(peers.drop_first(), key)
    }
}

/// Whether some peer in `peers` has the public key `key`.
pub open spec fn has_key(peers: Seq<PeerView>, key: Seq<char>) -> bool {
    exists|i: int| 0 <= i < peers.len() && (#[trigger] peers[i]).public_key == key
}

/// The predicate that holds of the peers whose public key is not `key`.
pub open spec fn other_key(key: Seq<char>) -> spec_fn(PeerView) -> bool {
    |p: PeerView| p.public_key != key
}

/// `peers` without every peer whose public key is `key`, the others in order.
pub open spec fn without_key(peers: Seq<PeerView>, key: Seq<char>) -> Seq<PeerView> {
    peers.filter(other_key(key))
}

/// The configuration `c` with the peers `peers`.
pub open spec fn with_peers(c: ConfigView, peers: Seq<PeerView>) -> ConfigView {
    ConfigView { peers, ..c }
}

/// `first_match` is the least position of a peer with the key, and is the
/// length exactly where no peer has it.
pub proof fn lemma_first_match(peers: Seq<PeerView>, key: Seq<char>)
    ensures
        first_match(peers, key) <= peers.len(),
        forall|j: int| 0 <= j < first_match(peers, key) ==> (#[trigger] peers[j]).public_key != key,
        first_match(peers, key) < peers.len() ==> peers[first_match(peers, key) as int].public_key
            == key,
        has_key(peers, key) <==> first_match(peers, key) < peers.len(),
    decreases peers.len(),
{
    if !(peers.len() == 0 || peers[0].public_key == key) {
        let rest = peers.drop_first();
        lemma_first_match(rest, key);
        assert forall|j: int| 0 <= j < first_match(peers, key) implies (
        #[trigger] peers[j]).public_key != key by {
            if j > 0 {
                assert(peers[j] == rest[j - 1]);
            }
        }
        if first_match(peers, key) < peers.len() {
            assert(peers[first_match(peers, key) as int] == rest[first_match(rest, key) as int]);
        }
    }
    let n = first_match(peers, key) as int;
    if n < peers.len() {
        assert(peers[n].public_key == key);
    }
}

/// A position before which no peer has the key, and which holds one that has
/// it or is the length, is `first_match`.
pub proof fn lemma_first_match_is(peers: Seq<PeerView>, key: Seq<char>, n: int)
    requires
        0 <= n <= peers.len(),
        forall|j: int| 0 <= j < n ==> (#[trigger] peers[j]).public_key != key,
        n < peers.len() ==> peers[n].public_key == key,
    ensures
        first_match(peers, key) == n,
    decreases peers.len(),
{
    if n > 0 {
        let rest = peers.drop_first();
        assert(peers[0].public_key != key);
        assert forall|j: int| 0 <= j < n - 1 implies (#[trigger] rest[j]).public_key != key by {
            assert(rest[j] == peers[j + 1]);
        }
        lemma_first_match_is(rest, key, n - 1);
    }
}

/// Removing a key leaves no peer with that key, keeps every other peer, and
/// changes nothing where no peer has the key.
pub proof fn lemma_without_key(peers: Seq<PeerView>, key: Seq<char>)
    ensures
        !has_key(without_key(peers, key), key),
        forall|p: PeerView|
            p.public_key != key ==> (#[trigger] without_key(peers, key).contains(p)
                <==> peers.contains(p)),
        !has_key(peers, key) ==> without_key(peers, key) == peers,
    decreases peers.len(),
{
    reveal(Seq::filter);
    let kept = without_key(peers, key);
    if peers.len() > 0 {
        let before = peers.drop_last();
        let last = peers.last();
        lemma_without_key(before, key);
        let kept_before = without_key(before, key);
        assert forall|i: int| 0 <= i < kept.len() implies (#[trigger] kept[i]).public_key
            != key by {
            if i < kept_before.len() {
                assert(kept[i] == kept_before[i]);
            }
        }
        assert forall|p: PeerView| p.public_key != key implies (#[trigger] kept.contains(p)
            <==> peers.contains(p)) by {
            if kept.contains(p) {
                let i = choose|i: int| 0 <= i < kept.len() && kept[i] == p;
                if i < kept_before.len() {
                    assert(kept_before[i] == p);
                    assert(kept_before.contains(p));
                    let j = choose|j: int| 0 <= j < before.len() && before[j] == p;
                    assert(peers[j] == p);
                } else {
                    assert(peers[peers.len() - 1] == p);
                }
            }
            if peers.contains(p) {
                let j = choose|j: int| 0 <= j < peers.len() && peers[j] == p;
                if j < before.len() {
                    assert(before[j] == p);
                    assert(before.contains(p));
                    assert(kept_before.contains(p));
                    let i = choose|i: int| 0 <= i < kept_before.len() && kept_before[i] == p;
                    assert(kept[i] == p);
                } else {
                    assert(kept[kept.len() - 1] == p);
                }
            }
        }
        if !has_key(peers, key) {
            assert(peers[peers.len() - 1].public_key != key);
            assert forall|i: int| 0 <= i < before.len() implies (#[trigger] before[i]).public_key
                != key by {
                assert(before[i] == peers[i]);
            }
            assert(kept =~= peers);
        }
    } else {
        assert(kept =~= peers);
    }
}

/// Adds `peer` after the peers of `config`, whatever their public keys.
pub fn add_peer(config: &mut WgConfig, peer: Peer)
    ensures
        final(config)@ == with_peers(old(config)@, old(config)@.peers.push(peer@)),
{
    config.peers.push(peer);
    assert(peer_views(config.peers@) =~= peer_views(old(config).peers@).push(peer@));
}

/// Puts `updated_peer` in the place of the first peer of `config` whose public
/// key is `public_key`. Where no peer has that key, `config` stays as it is.
pub fn update_peer(config: &mut WgConfig, public_key: &str, updated_peer: Peer) -> (r: Result<
    (),
    PeerError,
>)
    ensures
        r is Ok <==> has_key(old(config)@.peers, public_key@),
        r is Ok ==> final(config)@ == with_peers(
            old(config)@,
            old(config)@.peers.update(
                first_match(old(config)@.peers, public_key@) as int,
                updated_peer@,
            ),
        ),
        r is Err ==> r == Err::<(), PeerError>(PeerError::PeerNotFound) && *final(config) == *old(
            config,
        ),
{
    let key = public_key.to_owned();
    let ghost views = config@.peers;
    let mut i: usize = 0;
    while i < config.peers.len()
        invariant
            i <= config.peers.len(),
            *config == *old(config),
            views == config@.peers,
            key@ == public_key@,
            forall|j: int| 0 <= j < i ==> (#[trigger] views[j]).public_key != key@,
        decreases config.peers.len() - i,
    {
        if config.peers[i].public_key == key {
            proof {
                lemma_first_match_is(views, key@, i as int);
                lemma_first_match(views, key@);
            }
            config.peers.set(i, updated_peer);
            assert(peer_views(config.peers@) =~= views.update(i as int, updated_peer@));
            return Ok(());
        }
        i += 1;
    }
    proof {
        lemma_first_match_is(views, key@, i as int);
        lemma_first_match(views, key@);
    }
    Err(PeerError::PeerNotFound)
}

/// Removes from `config` every peer whose public key is `public_key`.
pub fn delete_peer(config: &mut WgConfig, public_key: &str)
    ensures
        final(config)@ == with_peers(
            old(config)@,
            without_key(old(config)@.peers, public_key@),
        ),
{
    let key = public_key.to_owned();
    let ghost views = config@.peers;
    let ghost mut seen: int = 0;
    let mut i: usize = 0;
    proof {
        reveal(Seq::filter);
        assert(views.take(0) =~= Seq::empty());
        assert(config@.peers =~= without_key(views.take(0), key@) + views.skip(0));
    }
    while i < config.peers.len()
        invariant
            0 <= seen <= views.len(),
            i <= config.peers.len(),
            config.peers.len() - i == views.len() - seen,
            key@ == public_key@,
            config.name == old(config).name,
            config.path == old(config).path,
            config.interface == old(config).interface,
            views == old(config)@.peers,
            i == without_key(views.take(seen), key@).len(),
            config@.peers == without_key(views.take(seen), key@) + views.skip(seen),
        decreases views.len() - seen,
    {
        let ghost current = config@.peers;
        let ghost kept = without_key(views.take(seen), key@);
        proof {
            reveal(Seq::filter);
            assert(views.take(seen + 1).drop_last() =~= views.take(seen));
            assert(views.take(seen + 1).last() == views[seen]);
            assert(current[i as int] == views[seen]);
        }
        if config.peers[i].public_key == key {
            config.peers.remove(i);
            proof {
                assert(config@.peers =~= current.remove(i as int));
                assert(without_key(views.take(seen + 1), key@) == kept);
                assert(config@.peers =~= kept + views.skip(seen + 1));
            }
        } else {
            proof {
                assert(without_key(views.take(seen + 1), key@) == kept.push(views[seen]));
                assert(config@.peers =~= kept.push(views[seen]) + views.skip(seen + 1));
            }
            i += 1;
        }
        proof {
            seen = seen + 1;
        }
    }
    proof {
        assert(views.take(seen) =~= views);
        assert(config@.peers =~= without_key(views, key@));
    }
}

} // verus!
