//! The subscribe streams of a session server's clients: the sending end of
//! each client's stream, under its client id.
use vstd::prelude::*;
use crate::keyed::{kdel, kget, kpos, kput, kunique, lemma_kpos, lemma_kput_kdel};
use crate::strings::{str_eq, strs};

verus! {

/// The keyed model of stored streams: client ids by their text.
pub open spec fn stream_views<S>(v: Seq<(String, S)>) -> Seq<(Seq<char>, S)> {
    v.map_values(|e: (String, S)| (e.0@, e.1))
}

/// The client ids of a keyed list, in order.
pub open spec fn client_ids<S>(s: Seq<(Seq<char>, S)>) -> Seq<Seq<char>> {
    s.map_values(|e: (Seq<char>, S)| e.0)
}

fn find_stream<S>(v: &Vec<(String, S)>, client_id: &str) -> (r: Option<usize>)
    requires
        kunique(stream_views(v@)),
    ensures
        match r {
            Some(i) => i < v@.len() && i as int == kpos(stream_views(v@), client_id@),
            None => kpos(stream_views(v@), client_id@) == -1,
        },
{
    let ghost s = stream_views(v@);
    proof {
        lemma_kpos(s, client_id@);
    }
    let mut i: usize = 0;
    while i < v.len()
        invariant
            i <= v.len(),
            s == stream_views(v@),
            kunique(s),
            forall|k: int| 0 <= k < i ==> v@[k].0@ != client_id@,
        decreases v.len() - i,
    {
        if str_eq(v[i].0.as_str(), client_id) {
            assert(s[i as int].0 == client_id@);
            proof {
                lemma_kpos(s, client_id@);
            }
            return Some(i);
        }
        i = i + 1;
    }
    assert forall|k: int| 0 <= k < s.len() implies s[k].0 != client_id@ by {
        assert(s[k].0 == v@[k].0@);
    }
    None
}

/// The sending ends of the clients' subscribe streams, one per client id,
/// in the order the clients first subscribed.
pub struct StreamRegistry<S: Clone> {
    streams: Vec<(String, S)>,
}

impl<S: Clone> StreamRegistry<S> {
    #[verifier::type_invariant]
    spec fn one_stream_per_client(self) -> bool {
        kunique(stream_views(self.streams@))
    }

    /// The streams, keyed by client id.
    pub closed spec fn streams(&self) -> Seq<(Seq<char>, S)> {
        stream_views(self.streams@)
    }

    /// No stream.
    pub fn new() -> (r: Self)
        ensures
            r.streams().len() == 0,
    {
        let r = StreamRegistry { streams: Vec::new() };
        assert(r.streams() =~= Seq::<(Seq<char>, S)>::empty());
        r
    }

    fn find(&self, client_id: &str) -> (r: Option<usize>)
        ensures
            match r {
                Some(i) => i < self.streams@.len() && i as int == kpos(self.streams(), client_id@),
                None => kpos(self.streams(), client_id@) == -1,
            },
    {
        proof {
            use_type_invariant(self);
        }
        find_stream(&self.streams, client_id)
    }

    /// Registers the stream of `client_id`, replacing an earlier one.
    pub fn register(&mut self, client_id: &str, tx: S)
        ensures
            final(self).streams() == kput(old(self).streams(), client_id@, tx),
    {
        proof {
            use_type_invariant(&*self);
            lemma_kput_kdel(self.streams(), client_id@, tx, client_id@);
        }
        let ghost before = self.streams();
        let mut v: Vec<(String, S)> = Vec::new();
        std::mem::swap(&mut v, &mut self.streams);
        let ghost k = client_id@;
        match find_stream(&v, client_id) {
            Some(i) => {
                v.set(i, (client_id.to_string(), tx));
                assert(stream_views(v@) =~= before.update(i as int, (k, tx)));
            },
            None => {
                v.push((client_id.to_string(), tx));
                assert(stream_views(v@) =~= before.push((k, tx)));
            },
        }
        self.streams = v;
    }

    /// Removes the stream of `client_id`, if any.
    pub fn unregister(&mut self, client_id: &str)
        ensures
            final(self).streams() == kdel(old(self).streams(), client_id@),
            kget(final(self).streams(), client_id@) is None,
            forall|other: Seq<char>|
                other != client_id@ ==> #[trigger] kget(final(self).streams(), other) == kget(
                    old(self).streams(),
                    other,
                ),
    {
        proof {
            use_type_invariant(&*self);
            lemma_kput_kdel(self.streams(), client_id@, arbitrary(), client_id@);
            assert forall|other: Seq<char>| other != client_id@ implies #[trigger] kget(kdel(self.streams(), client_id@), other) == kget(self.streams(), other) by {
                lemma_kput_kdel(self.streams(), client_id@, arbitrary(), other);
            }
        }
        let ghost before = self.streams();
        match self.find(client_id) {
            Some(i) => {
                let mut v: Vec<(String, S)> = Vec::new();
                std::mem::swap(&mut v, &mut self.streams);
                v.remove(i);
                assert(stream_views(v@) =~= before.remove(i as int));
                self.streams = v;
            },
            None => {},
        }
    }

    /// A clone of the stream of `client_id`, if it has one.
    pub fn get(&self, client_id: &str) -> (r: Option<S>)
        ensures
            match kget(self.streams(), client_id@) {
                Some(s) => r matches Some(c) && cloned(s, c),
                None => r is None,
            },
    {
        match self.find(client_id) {
            Some(i) => Some(self.streams[i].1.clone()),
            None => None,
        }
    }

    /// The client ids with a stream, in order.
    pub fn active_client_ids(&self) -> (r: Vec<String>)
        ensures
            strs(r@) == client_ids(self.streams()),
    {
        let ghost a = client_ids(self.streams());
        let mut out: Vec<String> = Vec::new();
        let mut i: usize = 0;
        while i < self.streams.len()
            invariant
                i <= self.streams.len(),
                a == client_ids(self.streams()),
                strs(out@) == a.take(i as int),
            decreases self.streams.len() - i,
        {
            let ghost before = strs(out@);
            out.push(self.streams[i].0.clone());
            assert(strs(out@) =~= before.push(a[i as int]));
            assert(a.take(i + 1) =~= a.take(i as int).push(a[i as int]));
            i = i + 1;
        }
        assert(a.take(self.streams.len() as int) =~= a);
        out
    }

    /// Number of streams.
    pub fn count(&self) -> (n: usize)
        ensures
            n == self.streams().len(),
    {
        self.streams.len()
    }
}

impl<S: Clone> Default for StreamRegistry<S> {
    fn default() -> (r: Self)
        ensures
            r.streams().len() == 0,
    {
        Self::new()
    }
}

/// What came of sending a push to a client's stream.
#[derive(Clone, Copy, Debug, PartialEq, Eq, Structural)]
pub enum SendOutcome {
    Sent,
    Full,
    Closed,
}

/// After a push to `client_id`'s stream: a closed stream leaves the
/// registry, a full one drops the push and stays, a sent one stays.
pub fn after_push<S: Clone>(registry: &mut StreamRegistry<S>, client_id: &str, outcome: SendOutcome)
    ensures
        outcome == SendOutcome::Closed ==> final(registry).streams() == kdel(old(registry).streams(), client_id@),
        outcome != SendOutcome::Closed ==> final(registry).streams() == old(registry).streams(),
{
    match outcome {
        SendOutcome::Closed => registry.unregister(client_id),
        _ => {},
    }
}

/// The client ids among `ids` that have a stream, in order.
pub open spec fn push_target_ids<S>(streams: Seq<(Seq<char>, S)>, ids: Seq<Seq<char>>) -> Seq<Seq<char>>
    decreases ids.len(),
{
    if ids.len() == 0 {
        ids
    } else {
        let rest = push_target_ids(streams, ids.drop_last());
        if kget(streams, ids.last()) is Some {
            rest.push(ids.last())
        } else {
            rest
        }
    }
}

/// The streams a push to the clients `ids` goes to, in order: each client
/// with a stream, with a clone of its stream; the others are skipped.
pub fn push_targets<S: Clone>(registry: &StreamRegistry<S>, ids: &Vec<String>) -> (r: Vec<(String, S)>)
    ensures
        client_ids(stream_views(r@)) == push_target_ids(registry.streams(), strs(ids@)),
        forall|k: int|
            0 <= k < r@.len() ==> (kget(registry.streams(), #[trigger] r@[k].0@) matches Some(s) && cloned(
                s,
                r@[k].1,
            )),
{
    let ghost sv = strs(ids@);
    let mut out: Vec<(String, S)> = Vec::new();
    let mut i: usize = 0;
    while i < ids.len()
        invariant
            i <= ids.len(),
            sv == strs(ids@),
            client_ids(stream_views(out@)) == push_target_ids(registry.streams(), sv.take(i as int)),
            forall|k: int|
                0 <= k < out@.len() ==> (kget(registry.streams(), #[trigger] out@[k].0@) matches Some(s) && cloned(
                    s,
                    out@[k].1,
                )),
        decreases ids.len() - i,
    {
        assert(sv.take(i + 1).drop_last() =~= sv.take(i as int));
        assert(sv.take(i + 1).last() == ids@[i as int]@);
        match registry.get(ids[i].as_str()) {
            Some(tx) => {
                let ghost before = client_ids(stream_views(out@));
                out.push((ids[i].clone(), tx));
                assert(client_ids(stream_views(out@)) =~= before.push(ids@[i as int]@));
            },
            None => {},
        }
        i = i + 1;
    }
    assert(sv.take(ids.len() as int) =~= sv);
    out
}

} // verus!
