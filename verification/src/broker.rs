//! What an engine on a message broker has to remember: which topics it has
//! subscribed to, and who waits for the next payload of which topic.

use crate::text::same_text;
use vstd::prelude::*;

verus! {

/// The mathematical content of a [`Broker`].
pub struct BrokerView {
    /// The topics that are subscribed to.
    pub subscriptions: Set<Seq<char>>,
    /// Who waits for which topic, the one who has waited longest first.
    pub watches: Seq<(Seq<char>, u64)>,
}

/// Someone who waits for the next payload of a topic.
#[derive(Debug)]
pub struct Watch {
    pub path: String,
    /// The number under which the host knows whom to answer.
    pub ticket: u64,
}

/// The subscriptions and the watches of one engine.
#[derive(Debug)]
pub struct Broker {
    subscriptions: Vec<String>,
    watches: Vec<Watch>,
}

/// The topics among the first `n` of `topics`.
pub open spec fn topics_of(topics: Seq<String>, n: nat) -> Set<Seq<char>> {
    Set::new(|t: Seq<char>| exists|i: int| 0 <= i < n && i < topics.len() && topics[i]@ == t)
}

/// The contents of a list of watches.
pub open spec fn watches_view(watches: Seq<Watch>) -> Seq<(Seq<char>, u64)> {
    Seq::new(watches.len(), |i: int| (watches[i].path@, watches[i].ticket))
}

/// The tickets of those among the first `n` watches who wait for `topic`, in
/// the order in which they came.
pub open spec fn waiting_for(watches: Seq<(Seq<char>, u64)>, topic: Seq<char>, n: nat) -> Seq<u64>
    decreases n,
{
    if n == 0 || n > watches.len() {
        Seq::empty()
    } else if watches[n - 1].0 == topic {
        waiting_for(watches, topic, (n - 1) as nat).push(watches[n - 1].1)
    } else {
        waiting_for(watches, topic, (n - 1) as nat)
    }
}

/// Those among the first `n` watches who wait for another topic than `topic`,
/// in the order in which they came.
pub open spec fn waiting_on(watches: Seq<(Seq<char>, u64)>, topic: Seq<char>, n: nat) -> Seq<
    (Seq<char>, u64),
>
    decreases n,
{
    if n == 0 || n > watches.len() {
        Seq::empty()
    } else if watches[n - 1].0 == topic {
        waiting_on(watches, topic, (n - 1) as nat)
    } else {
        waiting_on(watches, topic, (n - 1) as nat).push(watches[n - 1])
    }
}

impl View for Broker {
    type V = BrokerView;

    closed spec fn view(&self) -> BrokerView {
        BrokerView {
            subscriptions: topics_of(self.subscriptions@, self.subscriptions@.len()),
            watches: watches_view(self.watches@),
        }
    }
}

impl Broker {
    /// An engine that has subscribed to nothing and that nobody waits on.
    pub fn new() -> (b: Broker)
        ensures
            b@.subscriptions == Set::<Seq<char>>::empty(),
            b@.watches == Seq::<(Seq<char>, u64)>::empty(),
    {
        let b = Broker { subscriptions: Vec::new(), watches: Vec::new() };
        assert(b@.subscriptions =~= Set::<Seq<char>>::empty());
        assert(b@.watches =~= Seq::<(Seq<char>, u64)>::empty());
        b
    }

    /// Notes that `ticket` waits for the next payload of `path`.
    pub fn watch(&mut self, path: String, ticket: u64)
        ensures
            final(self)@.subscriptions == old(self)@.subscriptions,
            final(self)@.watches == old(self)@.watches.push((path@, ticket)),
    {
        self.watches.push(Watch { path, ticket });
        assert(self@.watches =~= old(self)@.watches.push((path@, ticket)));
    }

    /// Whether `topic` is subscribed to.
    pub fn is_subscribed(&self, topic: &str) -> (r: bool)
        ensures
            r == self@.subscriptions.contains(topic@),
    {
        let mut i: usize = 0;
        while i < self.subscriptions.len()
            invariant
                i <= self.subscriptions.len(),
                forall|j: int| 0 <= j < i ==> self.subscriptions@[j]@ != topic@,
            decreases self.subscriptions.len() - i,
        {
            if same_text(self.subscriptions[i].as_str(), topic) {
                return true;
            }
            i += 1;
        }
        false
    }

    /// Takes note of a subscription to `topics`, and says whether it has to
    /// be sent to the broker: it has, unless every one of the topics is
    /// subscribed to already.
    pub fn subscribe(&mut self, topics: &Vec<String>) -> (send: bool)
        ensures
            send == exists|i: int|
                0 <= i < topics@.len() && !old(self)@.subscriptions.contains(
                    #[trigger] topics@[i]@,
                ),
            final(self)@.subscriptions == old(self)@.subscriptions.union(
                topics_of(topics@, topics@.len()),
            ),
            final(self)@.watches == old(self)@.watches,
    {
        let ghost before = self@.subscriptions;
        let mut send = false;
        let mut i: usize = 0;
        assert(before.union(topics_of(topics@, 0)) =~= before);
        while i < topics.len()
            invariant
                i <= topics.len(),
                before == old(self)@.subscriptions,
                self@.watches == old(self)@.watches,
                self@.subscriptions == before.union(topics_of(topics@, i as nat)),
                send == exists|j: int|
                    0 <= j < i && !before.contains(#[trigger] topics@[j]@),
            decreases topics.len() - i,
        {
            let ghost sofar = self@.subscriptions;
            if !self.is_subscribed(topics[i].as_str()) {
                let ghost list = self.subscriptions@;
                self.subscriptions.push(topics[i].clone());
                assert(self@.subscriptions =~= sofar.insert(topics@[i as int]@)) by {
                    assert forall|t: Seq<char>|
                        self@.subscriptions.contains(t) <==> sofar.insert(
                            topics@[i as int]@,
                        ).contains(t) by {
                        if sofar.contains(t) {
                            let j = choose|j: int| 0 <= j < list.len() && list[j]@ == t;
                            assert(self.subscriptions@[j]@ == t);
                        }
                        if t == topics@[i as int]@ {
                            assert(self.subscriptions@[list.len() as int]@ == t);
                        }
                    }
                }
                send = true;
            } else {
                proof {
                    if !before.contains(topics@[i as int]@) {
                        let j = choose|j: int|
                            0 <= j < i && j < topics@.len() && topics@[j]@ == topics@[i as int]@;
                        assert(!before.contains(topics@[j]@));
                    }
                }
            }
            assert(self@.subscriptions =~= before.union(topics_of(topics@, (i + 1) as nat))) by {
                assert forall|t: Seq<char>|
                    topics_of(topics@, (i + 1) as nat).contains(t) <==> (topics_of(
                        topics@,
                        i as nat,
                    ).contains(t) || t == topics@[i as int]@) by {
                    if topics_of(topics@, (i + 1) as nat).contains(t) {
                        let j = choose|j: int|
                            0 <= j < i + 1 && j < topics@.len() && topics@[j]@ == t;
                        if j < i {
                            assert(topics_of(topics@, i as nat).contains(t));
                        }
                    }
                    if topics_of(topics@, i as nat).contains(t) {
                        let j = choose|j: int| 0 <= j < i && j < topics@.len() && topics@[j]@ == t;
                        assert(0 <= j < i + 1 && topics@[j]@ == t);
                    }
                    if t == topics@[i as int]@ {
                        assert(0 <= i < i + 1 && topics@[i as int]@ == t);
                    }
                }
            }
            i += 1;
        }
        send
    }

    /// The tickets of those who wait for `topic`, in the order in which they
    /// came. They wait no longer.
    pub fn deliver(&mut self, topic: &str) -> (tickets: Vec<u64>)
        ensures
            tickets@ == waiting_for(old(self)@.watches, topic@, old(self)@.watches.len()),
            final(self)@.watches == waiting_on(
                old(self)@.watches,
                topic@,
                old(self)@.watches.len(),
            ),
            final(self)@.subscriptions == old(self)@.subscriptions,
    {
        let ghost before = self@.watches;
        let mut tickets: Vec<u64> = Vec::new();
        let mut kept: Vec<Watch> = Vec::new();
        let mut i: usize = 0;
        let n = self.watches.len();
        assert(watches_view(kept@) =~= Seq::empty());
        while i < n
            invariant
                i <= n,
                n == self.watches.len(),
                self.subscriptions == old(self).subscriptions,
                before == watches_view(self.watches@),
                tickets@ == waiting_for(before, topic@, i as nat),
                watches_view(kept@) == waiting_on(before, topic@, i as nat),
            decreases n - i,
        {
            let ghost sofar = watches_view(kept@);
            assert(before[i as int] == (self.watches@[i as int].path@, self.watches@[i as int].ticket));
            if same_text(self.watches[i].path.as_str(), topic) {
                tickets.push(self.watches[i].ticket);
            } else {
                kept.push(
                    Watch { path: self.watches[i].path.clone(), ticket: self.watches[i].ticket },
                );
                assert(watches_view(kept@) =~= sofar.push(before[i as int]));
            }
            i += 1;
        }
        self.watches = kept;
        tickets
    }
}

} // verus!
