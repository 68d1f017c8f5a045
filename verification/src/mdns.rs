//! Reacting to mDNS events for the `_sstmount._tcp.local.` service: every
//! resolved address joins the discovered addresses once, and each address
//! that is new is announced for probing.

use vstd::prelude::*;
use crate::text::{trim_char, trim_char_text};
use crate::unique::{
    add_unique, extend_unique, lemma_extend_unique_contains_only_new,
    lemma_extend_unique_keeps_prefix, texts,
};

verus! {

/// The mDNS service type the mounts advertise.
pub open spec fn service_type_text() -> Seq<char> {
    "_sstmount._tcp.local."@
}

/// The mDNS service type the mounts advertise.
pub fn service_type() -> (s: &'static str)
    ensures
        s@ == service_type_text(),
{
    "_sstmount._tcp.local."
}

/// What the mDNS browser reported.
pub enum MdnsEvent {
    /// A service was resolved at these addresses, written as text.
    Resolved(Vec<String>),
    /// A service with this full name went away.
    Removed(String),
    /// Anything else: the search started, a service was found but not yet
    /// resolved, and the like.
    Other,
    /// The browser's channel failed.
    ReceiveError,
}

/// What to do after an mDNS event.
pub enum MdnsAction {
    /// Keep listening, after announcing each of these new addresses.
    Continue(Vec<String>),
    /// Stop listening.
    Stop,
}

/// Records what an mDNS event reports in the discovered addresses, and says
/// which addresses to announce: those of a resolved service that were not
/// discovered yet, each once, in the order reported. The browser stops on a
/// channel failure.
pub fn handle_mdns_event(discovered: &mut Vec<String>, event: MdnsEvent) -> (action: MdnsAction)
    ensures
        event is ReceiveError ==> action is Stop && final(discovered)@ == old(discovered)@,
        event is Removed || event is Other ==> (action matches MdnsAction::Continue(a)
            && a@.len() == 0 && final(discovered)@ == old(discovered)@),
        event matches MdnsEvent::Resolved(addrs) ==> texts(final(discovered)@) == extend_unique(
            texts(old(discovered)@),
            texts(addrs@),
        ),
        event matches MdnsEvent::Resolved(addrs) ==> (action matches MdnsAction::Continue(a) && texts(a@)
            == texts(final(discovered)@).subrange(
            old(discovered)@.len() as int,
            final(discovered)@.len() as int,
        )),
{
    match event {
        MdnsEvent::Resolved(addrs) => {
            let ghost start = texts(discovered@);
            let ghost n0 = discovered@.len();
            let mut announce: Vec<String> = Vec::new();
            let mut i: usize = 0;
            while i < addrs.len()
                invariant
                    i <= addrs@.len(),
                    n0 == start.len(),
                    texts(discovered@) == extend_unique(start, texts(addrs@).take(i as int)),
                    n0 <= discovered@.len(),
                    texts(announce@) == texts(discovered@).subrange(n0 as int, discovered@.len() as int),
                decreases addrs@.len() - i,
            {
                proof {
                    assert(texts(addrs@).take(i + 1).drop_last() =~= texts(addrs@).take(i as int));
                }
                let ip = addrs[i].clone();
                let ip2 = addrs[i].clone();
                let ghost before = discovered@;
                let ghost before_announce = announce@;
                let added = add_unique(discovered, ip);
                assert(texts(discovered@).len() == discovered@.len());
                assert(texts(before).len() == before.len());
                if added {
                    announce.push(ip2);
                    assert(texts(announce@) =~= texts(before_announce).push(ip2@));
                    assert(texts(discovered@) =~= texts(before).push(ip2@));
                    assert(texts(discovered@).subrange(n0 as int, discovered@.len() as int)
                        =~= texts(before).subrange(n0 as int, before.len() as int).push(ip2@));
                } else {
                    assert(texts(discovered@) =~= texts(before));
                }
                i = i + 1;
            }
            proof {
                assert(texts(addrs@).take(addrs@.len() as int) =~= texts(addrs@));
            }
            MdnsAction::Continue(announce)
        },
        MdnsEvent::Removed(_) => MdnsAction::Continue(Vec::new()),
        MdnsEvent::Other => MdnsAction::Continue(Vec::new()),
        MdnsEvent::ReceiveError => MdnsAction::Stop,
    }
}

/// An address is announced only when it was not discovered before, and
/// after the event it is discovered.
pub proof fn lemma_announced_are_new(old_texts: Seq<Seq<char>>, addrs: Seq<Seq<char>>)
    ensures
        forall|k: int|
            old_texts.len() <= k < extend_unique(old_texts, addrs).len() ==> !old_texts.contains(
                #[trigger] extend_unique(old_texts, addrs)[k],
            ),
        extend_unique(old_texts, addrs).subrange(0, old_texts.len() as int) == old_texts,
{
    lemma_extend_unique_contains_only_new(old_texts, addrs);
    lemma_extend_unique_keeps_prefix(old_texts, addrs);
}

/// The address carried by an announcement, as the event system delivers it
/// (a JSON string): the payload without its surrounding double quotes.
pub fn payload_ip(payload: &str) -> (ip: String)
    ensures
        ip@ == trim_char(payload@, '"'),
{
    trim_char_text(payload, '"')
}

} // verus!
