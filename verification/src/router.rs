use vstd::prelude::*;
use crate::messages::{ClientMessage, ClientMessageView, ServerMessage, ServerMessageView};
use crate::rng::pick_index;

verus! {

/// The identifiers eligible to receive a message from `sender`: every live
/// identifier except the sender, in snapshot order.
pub open spec fn spec_eligible(keys: Seq<u128>, sender: u128) -> Seq<u128>
    decreases keys.len(),
{
    if keys.len() == 0 {
        Seq::empty()
    } else if keys.first() == sender {
        spec_eligible(keys.drop_first(), sender)
    } else {
        seq![keys.first()] + spec_eligible(keys.drop_first(), sender)
    }
}

/// An identifier is eligible exactly when it is live and is not the sender.
pub proof fn lemma_eligible_membership(keys: Seq<u128>, sender: u128, k: u128)
    ensures
        spec_eligible(keys, sender).contains(k) <==> (keys.contains(k) && k != sender),
    decreases keys.len(),
{
    if keys.len() > 0 {
        lemma_eligible_membership(keys.drop_first(), sender, k);
        let rest = spec_eligible(keys.drop_first(), sender);
        if keys.first() == sender {
            if keys.contains(k) && k != sender {
                let i = choose|i: int| 0 <= i < keys.len() && keys[i] == k;
                assert(keys.drop_first()[i - 1] == k);
            }
        } else {
            let whole = seq![keys.first()] + rest;
            if keys.contains(k) && k != sender {
                if keys.first() == k {
                    assert(whole[0] == k);
                } else {
                    let i = choose|i: int| 0 <= i < keys.len() && keys[i] == k;
                    assert(keys.drop_first()[i - 1] == k);
                    let j = choose|j: int| 0 <= j < rest.len() && rest[j] == k;
                    assert(whole[j + 1] == k);
                }
            }
            if whole.contains(k) {
                let i = choose|i: int| 0 <= i < whole.len() && whole[i] == k;
                if i == 0 {
                    assert(keys[0] == k);
                } else {
                    assert(rest[i - 1] == k);
                    assert(keys.drop_first().contains(k));
                    let j = choose|j: int|
                        0 <= j < keys.drop_first().len() && keys.drop_first()[j] == k;
                    assert(keys[j + 1] == k);
                }
            }
        }
        if keys.drop_first().contains(k) {
            let i = choose|i: int| 0 <= i < keys.drop_first().len() && keys.drop_first()[i] == k;
            assert(keys[i + 1] == k);
        }
    }
}

/// With at least two live connections, the sender always has a peer.
pub proof fn lemma_eligible_nonempty(keys: Seq<u128>, sender: u128)
    requires
        keys.no_duplicates(),
        keys.len() >= 2,
    ensures
        spec_eligible(keys, sender).len() >= 1,
{
    if keys[0] == sender {
        assert(keys[1] != sender);
        assert(keys.contains(keys[1]));
        lemma_eligible_membership(keys, sender, keys[1]);
        let e = spec_eligible(keys, sender);
        assert(e.contains(keys[1]));
    } else {
        assert(keys.contains(keys[0]));
        lemma_eligible_membership(keys, sender, keys[0]);
        let e = spec_eligible(keys, sender);
        assert(e.contains(keys[0]));
    }
}

/// Every live identifier but the sender's, in snapshot order.
pub fn eligible_peers(keys: &Vec<u128>, sender: u128) -> (r: Vec<u128>)
    ensures
        r@ == spec_eligible(keys@, sender),
{
    let n = keys.len();
    let mut out: Vec<u128> = Vec::new();
    let mut i: usize = 0;
    proof {
        assert(keys@.skip(0) =~= keys@);
        assert(out@ + spec_eligible(keys@, sender) =~= spec_eligible(keys@, sender));
    }
    while i < n
        invariant
            n == keys@.len(),
            i <= n,
            spec_eligible(keys@, sender) == out@ + spec_eligible(keys@.skip(i as int), sender),
            forall|t: int| 0 <= t < out@.len() ==> #[trigger] out@[t] != sender,
        decreases n - i,
    {
        let k = keys[i];
        proof {
            let suffix = keys@.skip(i as int);
            assert(suffix.first() == keys@[i as int]);
            assert(suffix.drop_first() =~= keys@.skip(i + 1));
        }
        if k != sender {
            out.push(k);
            proof {
                assert(out@ + spec_eligible(keys@.skip(i + 1), sender) =~= out@.drop_last() + (
                seq![k] + spec_eligible(keys@.skip(i + 1), sender)));
            }
        }
        i += 1;
    }
    proof {
        assert(keys@.skip(n as int) =~= Seq::empty());
        assert(out@ + Seq::empty() =~= out@);
    }
    out
}

/// One planned delivery: which connection receives which message.
pub type Delivery = (u128, ServerMessage);

/// What every delivery the router plans has in common: it goes to a live
/// connection other than the sender, and it wraps the inbound message with
/// the sender's identity.
pub open spec fn spec_delivery_ok(
    keys: Seq<u128>,
    sender: u128,
    msg: ClientMessageView,
    d: Delivery,
) -> bool {
    &&& d.0 != sender
    &&& keys.contains(d.0)
    &&& d.1@ == (ServerMessageView::Broadcast { user_id: sender, msg })
}

/// The relay's dispatch policy: board updates and game
/// over frames fan out to every other live connection; destroyed lines go to
/// one other connection picked at random, or nowhere when the sender is
/// alone.
pub fn route(
    sender: u128,
    msg: &ClientMessage,
    keys: &Vec<u128>,
    source: &mut random::Xorshift128Plus,
) -> (r: Vec<Delivery>)
    requires
        keys@.no_duplicates(),
    ensures
        forall|t: int|
            0 <= t < r@.len() ==> spec_delivery_ok(keys@, sender, msg@, #[trigger] r@[t]),
        (msg@ is BoardUpdate || msg@ is GameOver) ==> r@.len() == spec_eligible(
            keys@,
            sender,
        ).len() && forall|t: int|
            0 <= t < r@.len() ==> (#[trigger] r@[t]).0 == spec_eligible(keys@, sender)[t],
        msg@ is LinesDestroyed && keys@.len() < 2 ==> r@.len() == 0,
        msg@ is LinesDestroyed && keys@.len() >= 2 ==> r@.len() == 1,
{
    match msg {
        ClientMessage::BoardUpdate(_) | ClientMessage::GameOver => {
            let peers = eligible_peers(keys, sender);
            let n = peers.len();
            let mut out: Vec<Delivery> = Vec::new();
            let mut i: usize = 0;
            while i < n
                invariant
                    n == peers@.len(),
                    peers@ == spec_eligible(keys@, sender),
                    i <= n,
                    out@.len() == i,
                    forall|t: int|
                        0 <= t < i ==> spec_delivery_ok(keys@, sender, msg@, #[trigger] out@[t]),
                    forall|t: int| 0 <= t < i ==> (#[trigger] out@[t]).0 == peers@[t],
                decreases n - i,
            {
                let target = peers[i];
                proof {
                    lemma_eligible_membership(keys@, sender, target);
                    assert(spec_eligible(keys@, sender).contains(target));
                }
                out.push((target, ServerMessage::Broadcast { user_id: sender, msg: msg.clone() }));
                i += 1;
            }
            out
        },
        ClientMessage::LinesDestroyed(_) => {
            let mut out: Vec<Delivery> = Vec::new();
            if keys.len() < 2 {
                return out;
            }
            let peers = eligible_peers(keys, sender);
            proof {
                lemma_eligible_nonempty(keys@, sender);
            }
            let idx = pick_index(source, peers.len());
            let target = peers[idx];
            proof {
                lemma_eligible_membership(keys@, sender, target);
                assert(spec_eligible(keys@, sender).contains(target));
            }
            out.push((target, ServerMessage::Broadcast { user_id: sender, msg: msg.clone() }));
            out
        },
    }
}

/// The administrative fan-out hook: every live connection, the caller
/// included, receives the given text verbatim.
pub fn admin_broadcast(keys: &Vec<u128>, content: &str) -> (r: Vec<(u128, String)>)
    ensures
        r@.len() == keys@.len(),
        forall|t: int|
            0 <= t < r@.len() ==> (#[trigger] r@[t]).0 == keys@[t] && r@[t].1@ == content@,
{
    let n = keys.len();
    let mut out: Vec<(u128, String)> = Vec::new();
    let mut i: usize = 0;
    while i < n
        invariant
            n == keys@.len(),
            i <= n,
            out@.len() == i,
            forall|t: int|
                0 <= t < i ==> (#[trigger] out@[t]).0 == keys@[t] && out@[t].1@ == content@,
        decreases n - i,
    {
        out.push((keys[i], content.to_owned()));
        i += 1;
    }
    out
}

/// The cosmetic prefix every outbound frame carries before the encoded
/// message.
pub fn frame_outbound(payload: &str) -> (r: String)
    ensures
        r@ == "Broadcast: "@ + payload@,
{
    let mut s = String::new();
    s.append("Broadcast: ");
    s.append(payload);
    proof {
        assert(s@ =~= "Broadcast: "@ + payload@);
    }
    s
}

/// Eligible targets repeat no identifier when the registry's snapshot does
/// not.
pub proof fn lemma_eligible_no_dup(keys: Seq<u128>, sender: u128)
    requires
        keys.no_duplicates(),
    ensures
        spec_eligible(keys, sender).no_duplicates(),
    decreases keys.len(),
{
    if keys.len() > 0 {
        let tail = keys.drop_first();
        assert forall|a: int, b: int| 0 <= a < b < tail.len() implies tail[a] != tail[b] by {
            assert(keys[a + 1] != keys[b + 1]);
        }
        lemma_eligible_no_dup(tail, sender);
        let rest = spec_eligible(tail, sender);
        if keys.first() != sender {
            let whole = seq![keys.first()] + rest;
            assert forall|a: int, b: int| 0 <= a < b < whole.len() implies whole[a] != whole[b] by {
                if a == 0 {
                    assert(whole[b] == rest[b - 1]);
                    assert(rest.contains(rest[b - 1]));
                    lemma_eligible_membership(tail, sender, rest[b - 1]);
                    assert(tail.contains(rest[b - 1]));
                    let j = choose|j: int| 0 <= j < tail.len() && tail[j] == rest[b - 1];
                    assert(keys[j + 1] == rest[b - 1]);
                    assert(keys[0] != keys[j + 1]);
                } else {
                    assert(rest[a - 1] != rest[b - 1]);
                }
            }
        }
    }
}

/// A broadcast's audience: every other live connection, each exactly once,
/// and never the sender. With the sender alone, the audience is empty.
pub proof fn lemma_broadcast_coverage(keys: Seq<u128>, sender: u128, k: u128)
    requires
        keys.no_duplicates(),
    ensures
        spec_eligible(keys, sender).contains(k) <==> (keys.contains(k) && k != sender),
        spec_eligible(keys, sender).no_duplicates(),
        keys == seq![sender] ==> spec_eligible(keys, sender).len() == 0,
{
    lemma_eligible_membership(keys, sender, k);
    lemma_eligible_no_dup(keys, sender);
    if keys == seq![sender] {
        let e = spec_eligible(keys, sender);
        if e.len() > 0 {
            assert(e.contains(e[0]));
            lemma_eligible_membership(keys, sender, e[0]);
            assert(keys.contains(e[0]));
            let i = choose|i: int| 0 <= i < keys.len() && keys[i] == e[0];
            assert(e[0] == sender);
            assert(false);
        }
    }
}

/// A targeted route between exactly two live connections can only reach the
/// peer; with the sender alone there is nobody to reach.
pub proof fn lemma_lines_two_party(a: u128, b: u128)
    requires
        a != b,
    ensures
        spec_eligible(seq![a, b], a) == seq![b],
        spec_eligible(seq![a], a) == Seq::<u128>::empty(),
{
    reveal_with_fuel(spec_eligible, 4);
    assert(seq![a, b].first() == a);
    assert(seq![a, b].drop_first() =~= seq![b]);
    assert(seq![b].first() == b);
    assert(seq![b].drop_first() =~= Seq::<u128>::empty());
    assert(seq![a].first() == a);
    assert(seq![a].drop_first() =~= Seq::<u128>::empty());
    assert(spec_eligible(seq![a, b], a) == spec_eligible(seq![b], a));
    assert(spec_eligible(seq![b], a) =~= seq![b] + spec_eligible(Seq::<u128>::empty(), a));
    assert(spec_eligible(seq![a, b], a) =~= seq![b]);
    assert(spec_eligible(seq![a], a) =~= Seq::<u128>::empty());
}

/// Once a connection has left the registry, no later route plans a delivery
/// to it: every planned delivery names a currently live target.
pub proof fn lemma_no_delivery_to_closed(
    keys: Seq<u128>,
    sender: u128,
    msg: crate::messages::ClientMessageView,
    d: Delivery,
    closed: u128,
)
    requires
        spec_delivery_ok(keys, sender, msg, d),
        !keys.contains(closed),
    ensures
        d.0 != closed,
{
}

} // verus!
