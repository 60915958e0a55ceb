//! The router: a single-writer actor owning all publish/subscribe state.
//!
//! One router instance owns four registries — the per-channel frame cache,
//! the publisher registry, the per-channel subscriber sets and the socket
//! registry — and mutates them only from within its own processing step.
//! Inbound payloads are dispatched by tag: `Publish` records the sender as
//! the channel's publisher, `Frame` caches the payload, `Pull` subscribes the
//! sender (and may trigger a catch-up broadcast of the cached frame), `Avg`
//! is suppressed, and everything else is forwarded verbatim. Fanout encodes
//! once, hands every subscriber a reference to the one shared buffer, and
//! lazily evicts subscribers whose outbound queue has closed.

use crate::codec;
use crate::codec::{channel_of, parse_ok, Tag};
use std::sync::Arc;
use vstd::hash_map::StringHashMap;
use vstd::prelude::*;

verus! {

broadcast use vstd::set::group_set_axioms, vstd::seq_lib::group_seq_lib_default;

/// Outbound sender handle of one connection: the write half of that
/// connection's unbounded queue of released buffers.
pub type Tx = tokio::sync::mpsc::UnboundedSender<Arc<Vec<u8>>>;

#[verifier::external_type_specification]
#[verifier::external_body]
#[verifier::reject_recursive_types(T)]
pub struct ExUnboundedSender<T>(tokio::sync::mpsc::UnboundedSender<T>);

#[verifier::external_type_specification]
#[verifier::external_body]
#[verifier::reject_recursive_types(T)]
pub struct ExUnboundedReceiver<T>(tokio::sync::mpsc::UnboundedReceiver<T>);

#[verifier::external_type_specification]
#[verifier::external_body]
pub struct ExContext<'a>(std::task::Context<'a>);

/// One event on the router's inbox.
pub enum Event {
    /// A connection registers (or replaces) its outbound sender.
    Socket(String, Tx),
    /// Inbound tagged payload bytes from a connection.
    Bytes(String, Tag, Vec<u8>),
    /// A released shared buffer. The router only ever emits these toward
    /// subscribers' senders and never consumes one itself.
    Release(Arc<Vec<u8>>),
}

/// The router's inbox: the consuming end of the unbounded, multi-producer
/// event channel that every connection task feeds.
pub type Rx = tokio::sync::mpsc::UnboundedReceiver<Event>;

/// Mathematical state of a router: what each registry holds, with channel
/// and identity names as character sequences and payloads as byte sequences.
#[verifier::ext_equal]
pub ghost struct RouterModel {
    /// Channel name to the last payload bytes tagged `Frame`.
    pub frames: Map<Seq<char>, Seq<u8>>,
    /// Channel name to the identity of the most recent `Publish` sender.
    pub publishers: Map<Seq<char>, Seq<char>>,
    /// Channel name to its set of subscriber identities.
    pub subs: Map<Seq<char>, Set<Seq<char>>>,
    /// Identity to its outbound sender handle.
    pub socks: Map<Seq<char>, Tx>,
}

/// The state of a freshly constructed router: every registry empty.
pub open spec fn init_model() -> RouterModel {
    RouterModel {
        frames: Map::empty(),
        publishers: Map::empty(),
        subs: Map::empty(),
        socks: Map::empty(),
    }
}

/// The subscriber set of a channel; empty when the channel was never pulled.
pub open spec fn subs_at(m: RouterModel, ch: Seq<char>) -> Set<Seq<char>> {
    if m.subs.dom().contains(ch) {
        m.subs[ch]
    } else {
        Set::empty()
    }
}

/// The registry mutation a tag applies, keyed on the parsed channel:
/// `Publish` records the sender, `Frame` caches the raw payload verbatim,
/// `Pull` inserts the sender into the channel's subscriber set, and any
/// other tag mutates nothing.
pub open spec fn apply_tag(
    m: RouterModel,
    id: Seq<char>,
    tag: Tag,
    data: Seq<u8>,
    ch: Seq<char>,
) -> RouterModel {
    match tag {
        Tag::Publish => RouterModel { publishers: m.publishers.insert(ch, id), ..m },
        Tag::Frame => RouterModel { frames: m.frames.insert(ch, data), ..m },
        Tag::Pull => RouterModel { subs: m.subs.insert(ch, subs_at(m, ch).insert(id)), ..m },
        _ => m,
    }
}

/// The message one dispatch hands to fanout, decided on the pre-dispatch
/// state: `Avg` is suppressed outright; `Pull` broadcasts the cached frame
/// only as catch-up, when a frame is cached and the sender was not yet
/// subscribed; every other tag is forwarded verbatim.
pub open spec fn fanout_message(
    m: RouterModel,
    id: Seq<char>,
    tag: Tag,
    data: Seq<u8>,
    ch: Seq<char>,
) -> Option<(Tag, Seq<u8>)> {
    match tag {
        Tag::Avg => None,
        Tag::Pull => if m.frames.dom().contains(ch) && !subs_at(m, ch).contains(id) {
            Some((Tag::Frame, m.frames[ch]))
        } else {
            None
        },
        _ => Some((tag, data)),
    }
}

/// How one fanout pass on `ch` relates the state before it to the state
/// after it: the frame cache, publisher registry and socket registry are
/// untouched, every other channel's subscribers are untouched, and `ch`'s
/// subscriber set loses exactly the identities whose delivery failed — all
/// of which had a registered socket (an identity with no socket is skipped,
/// not evicted).
pub open spec fn fanout_post(pre: RouterModel, ch: Seq<char>, post: RouterModel) -> bool {
    &&& post.frames == pre.frames
    &&& post.publishers == pre.publishers
    &&& post.socks == pre.socks
    &&& post.subs.dom() == pre.subs.dom()
    &&& forall|c: Seq<char>|
        #[trigger] pre.subs.dom().contains(c) && c != ch ==> post.subs[c] == pre.subs[c]
    &&& (pre.subs.dom().contains(ch) ==> {
        &&& post.subs[ch].subset_of(pre.subs[ch])
        &&& pre.subs[ch].difference(post.subs[ch]).subset_of(pre.socks.dom())
    })
    &&& (!pre.subs.dom().contains(ch) ==> post.subs == pre.subs)
}

/// How one dispatch relates the state before it to the state after it.
/// An unparseable payload is a pure no-op. Otherwise the tag's mutation is
/// applied under the parsed channel; if dispatch queues no message the state
/// is exactly the mutated one, and if it queues one, a single fanout pass on
/// that channel follows.
pub open spec fn deliver_post(
    pre: RouterModel,
    id: Seq<char>,
    tag: Tag,
    data: Seq<u8>,
    post: RouterModel,
) -> bool {
    if !parse_ok(data) {
        post == pre
    } else {
        let ch = channel_of(data);
        let stepped = apply_tag(pre, id, tag, data, ch);
        match fanout_message(pre, id, tag, data, ch) {
            None => post == stepped,
            Some(_) => fanout_post(stepped, ch, post),
        }
    }
}

/// How one event relates the state before it to the state after it:
/// registration upserts the socket registry, inbound bytes dispatch, and a
/// release event is never consumed by the router.
pub open spec fn event_post(pre: RouterModel, ev: Event, post: RouterModel) -> bool {
    match ev {
        Event::Socket(name, tx) => post == RouterModel { socks: pre.socks.insert(name@, tx), ..pre },
        Event::Bytes(name, tag, data) => deliver_post(pre, name@, tag, data@, post),
        Event::Release(_) => post == pre,
    }
}

/// How a drained batch of events relates the state before it to the state
/// after it: the events take effect one at a time, in arrival order.
pub open spec fn steps_post(pre: RouterModel, evs: Seq<Event>, post: RouterModel) -> bool
    decreases evs.len(),
{
    if evs.len() == 0 {
        post == pre
    } else {
        exists|mid: RouterModel|
            #[trigger] event_post(pre, evs[0], mid) && steps_post(mid, evs.skip(1), post)
    }
}

/// A batch followed by one more event is the batch extended by that event.
proof fn lemma_steps_post_snoc(
    pre: RouterModel,
    evs: Seq<Event>,
    mid: RouterModel,
    ev: Event,
    post: RouterModel,
)
    requires
        steps_post(pre, evs, mid),
        event_post(mid, ev, post),
    ensures
        steps_post(pre, evs.push(ev), post),
    decreases evs.len(),
{
    if evs.len() == 0 {
        assert(mid == pre);
        assert(evs.push(ev)[0] == ev);
        assert(evs.push(ev).skip(1) =~= Seq::<Event>::empty());
        assert(event_post(pre, evs.push(ev)[0], post) && steps_post(
            post,
            evs.push(ev).skip(1),
            post,
        ));
    } else {
        let m1 = choose|m1: RouterModel|
            #[trigger] event_post(pre, evs[0], m1) && steps_post(m1, evs.skip(1), mid);
        lemma_steps_post_snoc(m1, evs.skip(1), mid, ev, post);
        assert(evs.skip(1).push(ev) =~= evs.push(ev).skip(1));
        assert(evs.push(ev)[0] == evs[0]);
        assert(event_post(pre, evs.push(ev)[0], m1) && steps_post(m1, evs.push(ev).skip(1), post));
    }
}

/// Pushing an element onto a sequence adds exactly it to the element set.
proof fn lemma_to_set_push(s: Seq<Seq<char>>, e: Seq<char>)
    ensures
        s.push(e).to_set() == s.to_set().insert(e),
{
    assert forall|x: Seq<char>| s.push(e).to_set().contains(x) implies s.to_set().insert(
        e,
    ).contains(x) by {
        let i = choose|i: int| 0 <= i < s.push(e).len() && s.push(e)[i] == x;
        if i < s.len() {
            assert(s[i] == x);
        }
    }
    assert forall|x: Seq<char>| s.to_set().insert(e).contains(x) implies s.push(e).to_set().contains(
        x,
    ) by {
        if x == e {
            assert(s.push(e)[s.len() as int] == x);
        } else {
            let i = choose|i: int| 0 <= i < s.len() && s[i] == x;
            assert(s.push(e)[i] == x);
        }
    }
    assert(s.push(e).to_set() =~= s.to_set().insert(e));
}

/// Copies a byte buffer.
fn copy_bytes(v: &Vec<u8>) -> (r: Vec<u8>)
    ensures
        r@ == v@,
{
    let mut r: Vec<u8> = Vec::new();
    let mut i: usize = 0;
    while i < v.len()
        invariant
            i <= v@.len(),
            r@ == v@.subrange(0, i as int),
        decreases v@.len() - i,
    {
        r.push(v[i]);
        proof {
            assert(v@.subrange(0, i as int).push(v@[i as int]) =~= v@.subrange(0, i + 1));
        }
        i = i + 1;
    }
    proof {
        assert(v@.subrange(0, v@.len() as int) =~= v@);
    }
    r
}

/// Whether an identity occurs in a name list.
fn contains_name(v: &Vec<String>, name: &String) -> (r: bool)
    ensures
        r == v.deep_view().to_set().contains(name@),
{
    let mut i: usize = 0;
    while i < v.len()
        invariant
            i <= v@.len(),
            forall|j: int| 0 <= j < i ==> v.deep_view()[j] != name@,
        decreases v@.len() - i,
    {
        if v[i].eq(name) {
            proof {
                assert(v.deep_view()[i as int] == name@);
                assert(v.deep_view().contains(name@));
            }
            return true;
        }
        i = i + 1;
    }
    proof {
        assert(!v.deep_view().contains(name@));
    }
    false
}

/// A duplicate-free copy of `v` that also holds `name`: the insertion half
/// of the subscriber registry's idempotent upsert.
fn with_name(v: &Vec<String>, name: &String) -> (r: Vec<String>)
    ensures
        r.deep_view().no_duplicates(),
        r.deep_view().to_set() == v.deep_view().to_set().insert(name@),
{
    let mut r: Vec<String> = Vec::new();
    let mut i: usize = 0;
    while i < v.len()
        invariant
            i <= v@.len(),
            r.deep_view().no_duplicates(),
            r.deep_view().to_set() == v.deep_view().subrange(0, i as int).to_set(),
        decreases v@.len() - i,
    {
        if !contains_name(&r, &v[i]) {
            let ghost old_deep = r.deep_view();
            r.push(v[i].clone());
            proof {
                assert(r.deep_view() =~= old_deep.push(v.deep_view()[i as int]));
                lemma_to_set_push(old_deep, v.deep_view()[i as int]);
                assert(!old_deep.contains(v.deep_view()[i as int]));
            }
        }
        proof {
            assert(v.deep_view().subrange(0, i as int).push(v.deep_view()[i as int])
                =~= v.deep_view().subrange(0, i + 1));
            lemma_to_set_push(v.deep_view().subrange(0, i as int), v.deep_view()[i as int]);
            assert(r.deep_view().to_set() =~= v.deep_view().subrange(0, i + 1).to_set());
        }
        i = i + 1;
    }
    let ghost copied = r.deep_view();
    proof {
        assert(v.deep_view().subrange(0, v.deep_view().len() as int) =~= v.deep_view());
    }
    if !contains_name(&r, name) {
        r.push(name.clone());
        proof {
            assert(r.deep_view() =~= copied.push(name@));
            lemma_to_set_push(copied, name@);
            assert(!copied.contains(name@));
        }
    } else {
        proof {
            assert(r.deep_view().to_set() =~= v.deep_view().to_set().insert(name@));
        }
    }
    r
}

/// A duplicate-free copy of `v` without any identity that occurs in `gone`:
/// the deferred eviction at the end of a fanout pass.
fn retain_absent(v: &Vec<String>, gone: &Vec<String>) -> (r: Vec<String>)
    ensures
        r.deep_view().no_duplicates(),
        r.deep_view().to_set() == v.deep_view().to_set().difference(gone.deep_view().to_set()),
{
    let mut r: Vec<String> = Vec::new();
    let mut i: usize = 0;
    while i < v.len()
        invariant
            i <= v@.len(),
            r.deep_view().no_duplicates(),
            r.deep_view().to_set() == v.deep_view().subrange(0, i as int).to_set().difference(
                gone.deep_view().to_set(),
            ),
        decreases v@.len() - i,
    {
        if !contains_name(gone, &v[i]) && !contains_name(&r, &v[i]) {
            let ghost old_deep = r.deep_view();
            r.push(v[i].clone());
            proof {
                assert(r.deep_view() =~= old_deep.push(v.deep_view()[i as int]));
                lemma_to_set_push(old_deep, v.deep_view()[i as int]);
                assert(!old_deep.contains(v.deep_view()[i as int]));
            }
        }
        proof {
            assert(v.deep_view().subrange(0, i as int).push(v.deep_view()[i as int])
                =~= v.deep_view().subrange(0, i + 1));
            lemma_to_set_push(v.deep_view().subrange(0, i as int), v.deep_view()[i as int]);
            assert(r.deep_view().to_set() =~= v.deep_view().subrange(0, i + 1).to_set().difference(
                gone.deep_view().to_set(),
            ));
        }
        i = i + 1;
    }
    proof {
        assert(v.deep_view().subrange(0, v.deep_view().len() as int) =~= v.deep_view());
    }
    r
}

/// Relies on tokio's `UnboundedSender::send`: it never blocks (the queue is
/// unbounded) and fails exactly when the receiving half was closed or
/// dropped. Whether a given peer's queue is still open depends on that peer
/// alone, so nothing is promised of the result.
#[verifier::external_body]
fn send_chunk(tx: &Tx, chunk: &Arc<Vec<u8>>) -> bool {
    tx.send(chunk.clone()).is_ok()
}

/// Relies on tokio's `UnboundedReceiver::poll_recv`: a plain, non-blocking
/// call that yields the next queued event, `None` once the channel is closed
/// and empty, or — mapped here from `Poll::Pending` to an outer `None` —
/// nothing yet, after scheduling a wake-up through the caller's context.
/// What arrives depends on the producers alone, so nothing is promised.
#[verifier::external_body]
fn poll_next_event<'a>(rx: &mut Rx, cx: &mut std::task::Context<'a>) -> Option<Option<Event>> {
    match rx.poll_recv(cx) {
        std::task::Poll::Ready(ev) => Some(ev),
        std::task::Poll::Pending => None,
    }
}

/// The exchange hub's core: owns the four registries and the consuming end
/// of the event channel, and dispatches events.
pub struct Router {
    frame: StringHashMap<Vec<u8>>,
    publish: StringHashMap<String>,
    pull: StringHashMap<Vec<String>>,
    socket: StringHashMap<Tx>,
    receiver: Rx,
}

impl View for Router {
    type V = RouterModel;

    closed spec fn view(&self) -> RouterModel {
        RouterModel {
            frames: self.frame@.map_values(|d: Vec<u8>| d@),
            publishers: self.publish@.map_values(|p: String| p@),
            subs: self.pull@.map_values(|v: Vec<String>| v.deep_view().to_set()),
            socks: self.socket@,
        }
    }
}

impl Router {
    /// Each stored subscriber list is free of duplicates, so a fanout pass
    /// hands each subscriber at most one reference to the shared buffer.
    pub closed spec fn wf(self) -> bool {
        forall|c: Seq<char>|
            #[trigger] self.pull@.dom().contains(c) ==> self.pull@[c].deep_view().no_duplicates()
    }

    /// Creates a router with every registry empty, taking exclusive
    /// ownership of the event channel's consuming end.
    pub fn new(receiver: Rx) -> (r: Router)
        ensures
            r.wf(),
            r@ == init_model(),
    {
        let r = Router {
            frame: StringHashMap::new(),
            publish: StringHashMap::new(),
            pull: StringHashMap::new(),
            socket: StringHashMap::new(),
            receiver,
        };
        proof {
            assert(r@.frames =~= init_model().frames);
            assert(r@.publishers =~= init_model().publishers);
            assert(r@.subs =~= init_model().subs);
            assert(r@ =~= init_model());
        }
        r
    }

    /// Registers (or silently replaces) the outbound sender of an identity;
    /// an idempotent upsert with no other effect.
    pub fn register(&mut self, name: String, tx: Tx)
        requires
            old(self).wf(),
        ensures
            final(self).wf(),
            final(self)@ == (RouterModel { socks: old(self)@.socks.insert(name@, tx), ..old(self)@ }),
    {
        self.socket.insert(name, tx);
        proof {
            assert(final(self)@ =~= (RouterModel {
                socks: old(self)@.socks.insert(name@, tx),
                ..old(self)@
            }));
        }
    }

    /// Fanout: encodes the message once, hands every subscriber of the
    /// channel a reference to the one shared buffer, and, after the full
    /// scan, evicts every identity whose delivery failed. A failed delivery
    /// is never retried and never reported to the sender.
    fn broadcast(&mut self, channel: &String, tag: Tag, data: &Vec<u8>)
        requires
            old(self).wf(),
        ensures
            final(self).wf(),
            fanout_post(old(self)@, channel@, final(self)@),
    {
        let wire = codec::encode(tag, data);
        let chunk: Arc<Vec<u8>> = Arc::new(wire);
        let mut update: Option<Vec<String>> = None;
        match self.pull.get(channel.as_str()) {
            None => {},
            Some(subs) => {
                let mut fail: Vec<String> = Vec::new();
                let mut i: usize = 0;
                while i < subs.len()
                    invariant
                        i <= subs@.len(),
                        forall|x: Seq<char>|
                            #[trigger] fail.deep_view().to_set().contains(x) ==> self.socket@.dom(
                            ).contains(x) && subs.deep_view().to_set().contains(x),
                    decreases subs@.len() - i,
                {
                    match self.socket.get(subs[i].as_str()) {
                        Some(tx) => if !send_chunk(tx, &chunk) {
                            let ghost fd = fail.deep_view();
                            fail.push(subs[i].clone());
                            proof {
                                assert(fail.deep_view() =~= fd.push(subs.deep_view()[i as int]));
                                lemma_to_set_push(fd, subs.deep_view()[i as int]);
                                assert(subs.deep_view().contains(subs.deep_view()[i as int]));
                            }
                        },
                        None => {},
                    }
                    i = i + 1;
                }
                if fail.len() > 0 {
                    update = Some(retain_absent(subs, &fail));
                    proof {
                        assert(subs.deep_view().to_set() == self@.subs[channel@]);
                        assert(match update {
                            Some(rem) => {
                                &&& rem.deep_view().no_duplicates()
                                &&& rem.deep_view().to_set().subset_of(self@.subs[channel@])
                                &&& self@.subs[channel@].difference(
                                    rem.deep_view().to_set(),
                                ).subset_of(self@.socks.dom())
                            },
                            None => false,
                        });
                    }
                }
            },
        }
        match update {
            Some(remaining) => {
                proof {
                    assert(self.pull@.dom().contains(channel@));
                }
                self.pull.insert(channel.clone(), remaining);
                proof {
                    assert(self@.subs =~= old(self)@.subs.insert(
                        channel@,
                        remaining.deep_view().to_set(),
                    ));
                    assert(self@.subs.dom() =~= old(self)@.subs.dom());
                }
            },
            None => {},
        }
    }

    /// Dispatches one inbound payload from the identity `name`. Parses the
    /// channel (a malformed payload is dropped silently), queues a catch-up
    /// frame for a first-time `Pull` when one is cached, applies the tag's
    /// registry mutation, suppresses `Avg`, forwards every other non-`Pull`
    /// tag, and fans the queued message out on the parsed channel.
    pub fn deliver(&mut self, name: &String, tag: Tag, data: &Vec<u8>)
        requires
            old(self).wf(),
        ensures
            final(self).wf(),
            deliver_post(old(self)@, name@, tag, data@, final(self)@),
    {
        let payload = match codec::parse(data) {
            Ok(p) => p,
            Err(_) => {
                return ;
            },
        };
        let channel: String = payload.name;
        let ghost pre = self@;
        let ghost ch = channel@;
        let ghost plan = fanout_message(pre, name@, tag, data@, ch);

        // Catch-up rule, decided on the pre-dispatch state: a first-time
        // subscriber causes the cached frame to be queued for broadcast.
        let mut message: Option<(Tag, Vec<u8>)> = None;
        if let Tag::Pull = tag {
            match self.frame.get(channel.as_str()) {
                Some(cached) => {
                    let already: bool = match self.pull.get(channel.as_str()) {
                        Some(subs) => contains_name(subs, name),
                        None => false,
                    };
                    if !already {
                        message = Some((Tag::Frame, copy_bytes(cached)));
                    }
                },
                None => {},
            }
        }

        // Registry mutation keyed by tag.
        match tag {
            Tag::Publish => {
                self.publish.insert(channel.clone(), name.clone());
                proof {
                    assert(self@.publishers =~= apply_tag(pre, name@, tag, data@, ch).publishers);
                }
            },
            Tag::Frame => {
                self.frame.insert(channel.clone(), copy_bytes(data));
                proof {
                    assert(self@.frames =~= apply_tag(pre, name@, tag, data@, ch).frames);
                }
            },
            Tag::Pull => {
                let updated: Vec<String> = match self.pull.get(channel.as_str()) {
                    Some(subs) => with_name(subs, name),
                    None => {
                        let mut v: Vec<String> = Vec::new();
                        v.push(name.clone());
                        proof {
                            assert(v.deep_view() =~= Seq::<Seq<char>>::empty().push(name@));
                            lemma_to_set_push(Seq::<Seq<char>>::empty(), name@);
                            assert(v.deep_view().to_set() =~= subs_at(pre, ch).insert(name@));
                        }
                        v
                    },
                };
                self.pull.insert(channel.clone(), updated);
                proof {
                    assert(self@.subs =~= apply_tag(pre, name@, tag, data@, ch).subs);
                }
            },
            _ => {},
        }
        proof {
            assert(self@ =~= apply_tag(pre, name@, tag, data@, ch));
        }

        // Suppression rule: an internal metric is never broadcast.
        if let Tag::Avg = tag {
            return ;
        }
        // Forward rule: everything but a subscription is forwarded verbatim.
        match tag {
            Tag::Pull => {},
            _ => {
                message = Some((tag, copy_bytes(data)));
            },
        }
        match message {
            Some(m) => {
                proof {
                    assert(plan matches Some(_));
                }
                self.broadcast(&channel, m.0, &m.1);
            },
            None => {
                proof {
                    assert(plan matches None);
                }
            },
        }
    }

    /// Processes one inbox event: a socket registration upserts the socket
    /// registry, inbound bytes are dispatched, and a release event — only
    /// ever emitted by the router, never meant for it — is ignored.
    pub fn process_event(&mut self, ev: Event)
        requires
            old(self).wf(),
        ensures
            final(self).wf(),
            event_post(old(self)@, ev, final(self)@),
    {
        match ev {
            Event::Socket(name, tx) => self.register(name, tx),
            Event::Bytes(name, tag, data) => self.deliver(&name, tag, &data),
            Event::Release(_) => {},
        }
    }

    /// One step of the actor's activation: takes the next currently queued
    /// inbox event, if there is one, and applies it. Returns whether an
    /// event was taken, so the caller's loop drains every queued event and
    /// then suspends until the channel (through `cx`) reports a new one.
    /// Which event arrives depends on the producers alone.
    pub fn poll_step<'a>(&mut self, cx: &mut std::task::Context<'a>) -> (more: bool)
        requires
            old(self).wf(),
        ensures
            final(self).wf(),
            more ==> exists|ev: Event| #[trigger] event_post(old(self)@, ev, final(self)@),
            !more ==> final(self)@ == old(self)@,
    {
        match poll_next_event(&mut self.receiver, cx) {
            Some(Some(ev)) => {
                let ghost gev = ev;
                self.process_event(ev);
                proof {
                    assert(event_post(old(self)@, gev, self@));
                }
                true
            },
            _ => false,
        }
    }

    /// Processes a whole drained batch of events, in arrival order and
    /// without yielding in between.
    pub fn process(&mut self, events: Vec<Event>)
        requires
            old(self).wf(),
        ensures
            final(self).wf(),
            steps_post(old(self)@, events@, final(self)@),
    {
        let ghost all = events@;
        let mut rest = events;
        let ghost mut done: Seq<Event> = Seq::empty();
        while rest.len() > 0
            invariant
                self.wf(),
                steps_post(old(self)@, done, self@),
                all == done + rest@,
            decreases rest@.len(),
        {
            let ghost prev = self@;
            let ghost d0 = done;
            let ev = rest.remove(0);
            self.process_event(ev);
            proof {
                lemma_steps_post_snoc(old(self)@, d0, prev, ev, self@);
                done = d0.push(ev);
                assert(all =~= done + rest@);
            }
        }
        proof {
            assert(done =~= all);
        }
    }

    /// Whether `name` is currently subscribed to `channel`.
    pub fn is_subscribed(&self, channel: &str, name: &String) -> (r: bool)
        ensures
            r == subs_at(self@, channel@).contains(name@),
    {
        match self.pull.get(channel) {
            Some(subs) => contains_name(subs, name),
            None => false,
        }
    }

    /// Number of current subscribers of `channel`.
    pub fn subscriber_count(&self, channel: &str) -> (n: usize)
        requires
            self.wf(),
        ensures
            n == subs_at(self@, channel@).len(),
    {
        match self.pull.get(channel) {
            Some(subs) => {
                proof {
                    subs.deep_view().unique_seq_to_set();
                }
                subs.len()
            },
            None => 0,
        }
    }

    /// The identity last recorded as `channel`'s publisher, if any.
    pub fn publisher_of(&self, channel: &str) -> (r: Option<&String>)
        ensures
            match r {
                Some(p) => self@.publishers.dom().contains(channel@) && p@
                    == self@.publishers[channel@],
                None => !self@.publishers.dom().contains(channel@),
            },
    {
        self.publish.get(channel)
    }

    /// The payload bytes last cached for `channel` by a `Frame`, if any.
    pub fn cached_frame(&self, channel: &str) -> (r: Option<&Vec<u8>>)
        ensures
            match r {
                Some(d) => self@.frames.dom().contains(channel@) && d@ == self@.frames[channel@],
                None => !self@.frames.dom().contains(channel@),
            },
    {
        self.frame.get(channel)
    }

    /// Whether an identity currently has a registered outbound sender.
    pub fn has_socket(&self, name: &str) -> (r: bool)
        ensures
            r == self@.socks.dom().contains(name@),
    {
        self.socket.contains_key(name)
    }
}

} // verus!
