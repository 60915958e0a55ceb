//! Laws of the router, stated over its mathematical model and proved once
//! for all states, identities and payloads. Each law speaks purely about the
//! dispatch relation that [`crate::router::Router::deliver`] ensures.

use crate::codec::{channel_of, parse_ok, Tag};
use crate::router::{
    apply_tag, deliver_post, fanout_message, subs_at, RouterModel,
};
use vstd::prelude::*;

verus! {

/// Law (idempotent subscription): a `Pull` from an identity that is already
/// subscribed to the payload's channel leaves the whole router state exactly
/// as it was — the subscriber set keeps its size, and no catch-up message is
/// queued for broadcast a second time.
pub proof fn lemma_subscribe_idempotent(
    pre: RouterModel,
    id: Seq<char>,
    data: Seq<u8>,
    post: RouterModel,
)
    requires
        parse_ok(data),
        subs_at(pre, channel_of(data)).contains(id),
        deliver_post(pre, id, Tag::Pull, data, post),
    ensures
        post == pre,
        fanout_message(pre, id, Tag::Pull, data, channel_of(data)) matches None,
{
    let ch = channel_of(data);
    assert(pre.subs.dom().contains(ch));
    assert(subs_at(pre, ch).insert(id) =~= subs_at(pre, ch));
    assert(pre.subs.insert(ch, subs_at(pre, ch).insert(id)) =~= pre.subs);
    assert(apply_tag(pre, id, Tag::Pull, data, ch) =~= pre);
}

/// Law (suppression): an inbound payload tagged `Avg` changes nothing and
/// queues nothing for broadcast — zero outbound messages on any channel.
pub proof fn lemma_avg_suppressed(
    pre: RouterModel,
    id: Seq<char>,
    data: Seq<u8>,
    post: RouterModel,
)
    requires
        deliver_post(pre, id, Tag::Avg, data, post),
    ensures
        post == pre,
        forall|ch: Seq<char>| #[trigger] fanout_message(pre, id, Tag::Avg, data, ch) matches None,
{
}

/// Law (no self-forward): dispatch never queues a `Pull`-tagged message for
/// broadcast, whatever the state, sender, tag and payload: a subscription
/// request itself is never rebroadcast to peers.
pub proof fn lemma_pull_never_forwarded(
    m: RouterModel,
    id: Seq<char>,
    tag: Tag,
    data: Seq<u8>,
    ch: Seq<char>,
)
    ensures
        fanout_message(m, id, tag, data, ch) matches Some(msg) ==> msg.0 != Tag::Pull,
{
}

/// Law (ordering): for one producer, a `Publish` followed by a `Pull` on the
/// same payload is reflected in the registries in that order: afterwards the
/// producer is the channel's recorded publisher and — unless it has a
/// registered socket, through which the catch-up fanout could evict it — a
/// member of the channel's subscriber set.
pub proof fn lemma_publish_then_pull(
    pre: RouterModel,
    id: Seq<char>,
    data: Seq<u8>,
    mid: RouterModel,
    post: RouterModel,
)
    requires
        parse_ok(data),
        deliver_post(pre, id, Tag::Publish, data, mid),
        deliver_post(mid, id, Tag::Pull, data, post),
    ensures
        post.publishers.dom().contains(channel_of(data)),
        post.publishers[channel_of(data)] == id,
        !pre.socks.dom().contains(id) ==> subs_at(post, channel_of(data)).contains(id),
{
    let ch = channel_of(data);
    let stepped1 = apply_tag(pre, id, Tag::Publish, data, ch);
    assert(mid.publishers == stepped1.publishers && mid.socks == pre.socks);
    let stepped2 = apply_tag(mid, id, Tag::Pull, data, ch);
    assert(stepped2.subs.dom().contains(ch) && stepped2.subs[ch].contains(id));
    match fanout_message(mid, id, Tag::Pull, data, ch) {
        None => {
            assert(post == stepped2);
        },
        Some(_) => {
            assert(post.subs.dom().contains(ch));
            if !pre.socks.dom().contains(id) {
                assert(!stepped2.subs[ch].difference(post.subs[ch]).contains(id));
            }
        },
    }
}

} // verus!
