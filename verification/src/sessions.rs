//! Session-scoped state: the peer notifier table used to push
//! `list_changed` to connected clients, and each source's per-session
//! state records. Closing a session clears both completely.

use crate::text::{lemma_strings_push, str_eq, view_strings};
use vstd::prelude::*;

verus! {

broadcast use vstd::std_specs::vec::group_vec_axioms, vstd::seq::group_seq_axioms;

/// Per-session state the proxy holds on behalf of sources and notifiers.
#[derive(Debug)]
pub struct SessionRegistry {
    /// Session ids with a cached peer reference for `list_changed` pushes.
    peers: Vec<String>,
    /// For each source, the session ids it holds per-session state for.
    per_session: Vec<(String, Vec<String>)>,
}

/// Remove every occurrence of `sid` from a list of session ids.
fn remove_session_id(v: &Vec<String>, sid: &str) -> (r: Vec<String>)
    ensures
        !view_strings(r@).contains(sid@),
        forall|x: Seq<char>|
            x != sid@ ==> (view_strings(r@).contains(x) <==> view_strings(v@).contains(x)),
{
    let n = v.len();
    let mut out: Vec<String> = Vec::new();
    let mut i: usize = 0;
    while i < n
        invariant
            n == v@.len(),
            i <= n,
            !view_strings(out@).contains(sid@),
            forall|x: Seq<char>|
                x != sid@ ==> (view_strings(out@).contains(x) <==> view_strings(
                    v@.take(i as int),
                ).contains(x)),
        decreases n - i,
    {
        let ghost prev = out@;
        proof {
            assert(v@.take(i + 1) =~= v@.take(i as int).push(v@[i as int]));
            lemma_strings_push(v@.take(i as int), v@[i as int]);
        }
        if !str_eq(v[i].as_str(), sid) {
            out.push(v[i].clone());
            proof {
                assert(out@ == prev.push(out@.last()));
                lemma_strings_push(prev, out@.last());
                assert(out@.last()@ == v@[i as int]@);
            }
        }
        proof {
            assert forall|x: Seq<char>| x != sid@ implies (view_strings(out@).contains(x)
                <==> view_strings(v@.take(i + 1)).contains(x)) by {
                assert(view_strings(v@.take(i + 1)).contains(x) <==> (view_strings(
                    v@.take(i as int),
                ).contains(x) || x == v@[i as int]@));
            }
        }
        i = i + 1;
    }
    proof {
        assert(v@.take(n as int) =~= v@);
    }
    out
}

impl SessionRegistry {
    /// Whether a peer reference is cached for a session.
    pub closed spec fn spec_has_peer(self, sid: Seq<char>) -> bool {
        view_strings(self.peers@).contains(sid)
    }

    /// Whether any source retains per-session state for a session.
    pub closed spec fn spec_retains_session(self, sid: Seq<char>) -> bool {
        exists|i: int|
            0 <= i < self.per_session@.len() && view_strings(
                (#[trigger] self.per_session@[i]).1@,
            ).contains(sid)
    }

    /// An empty registry.
    pub fn new() -> (r: SessionRegistry)
        ensures
            forall|s: Seq<char>| !r.spec_has_peer(s),
            forall|s: Seq<char>| !r.spec_retains_session(s),
    {
        SessionRegistry { peers: Vec::new(), per_session: Vec::new() }
    }

    /// Cache a peer reference for a session.
    pub fn observe_peer(&mut self, sid: &str)
        ensures
            final(self).spec_has_peer(sid@),
            forall|s: Seq<char>|
                s != sid@ ==> (final(self).spec_has_peer(s) <==> old(self).spec_has_peer(s)),
            forall|s: Seq<char>|
                final(self).spec_retains_session(s) <==> old(self).spec_retains_session(s),
    {
        let ghost prev = self.peers@;
        self.peers.push(sid.to_owned());
        proof {
            assert(self.per_session == old(self).per_session);
            assert(self.peers@ == prev.push(self.peers@.last()));
            lemma_strings_push(prev, self.peers@.last());
            assert(self.peers@.last()@ == sid@);
            assert(view_strings(prev.push(self.peers@.last())).contains(sid@));
        }
    }

    /// Record that a source holds per-session state for a session.
    pub fn record_session_state(&mut self, source_id: &str, sid: &str)
        ensures
            final(self).spec_retains_session(sid@),
            forall|s: Seq<char>|
                final(self).spec_has_peer(s) <==> old(self).spec_has_peer(s),
            forall|s: Seq<char>|
                old(self).spec_retains_session(s) ==> final(self).spec_retains_session(s),
    {
        let n = self.per_session.len();
        let mut i: usize = 0;
        while i < n
            invariant
                n == self.per_session@.len(),
                i <= n,
                self == old(self),
            decreases n - i,
        {
            if str_eq(self.per_session[i].0.as_str(), source_id) {
                break ;
            }
            i = i + 1;
        }
        if i < n {
            let ghost prevseq = self.per_session@;
            let entry = self.per_session.remove(i);
            let key = entry.0;
            let mut ids = entry.1;
            let ghost previds = ids@;
            ids.push(sid.to_owned());
            self.per_session.push((key, ids));
            proof {
                let last = self.per_session@.len() - 1;
                assert(view_strings(self.per_session@[last].1@).last() == sid@);
                assert(self.spec_retains_session(sid@));
                assert forall|s: Seq<char>|
                    old(self).spec_retains_session(s) implies self.spec_retains_session(s) by {
                    let t = choose|t: int|
                        0 <= t < prevseq.len() && view_strings(
                            (#[trigger] prevseq[t]).1@,
                        ).contains(s);
                    if t == i {
                        let q = choose|q: int|
                            0 <= q < previds.len() && view_strings(previds)[q] == s;
                        assert(view_strings(self.per_session@[last].1@)[q] == s);
                        assert(view_strings(self.per_session@[last].1@).contains(s));
                    } else {
                        let t2: int = if t < i {
                            t
                        } else {
                            t - 1
                        };
                        assert(self.per_session@[t2] == prevseq[t]);
                        assert(view_strings(self.per_session@[t2].1@).contains(s));
                    }
                }
            }
        } else {
            let ghost prevseq = self.per_session@;
            let mut ids: Vec<String> = Vec::new();
            ids.push(sid.to_owned());
            self.per_session.push((source_id.to_owned(), ids));
            proof {
                let last = self.per_session@.len() - 1;
                assert(view_strings(self.per_session@[last].1@)[0] == sid@);
                assert(self.spec_retains_session(sid@));
                assert forall|s: Seq<char>|
                    old(self).spec_retains_session(s) implies self.spec_retains_session(s) by {
                    let t = choose|t: int|
                        0 <= t < prevseq.len() && view_strings(
                            (#[trigger] prevseq[t]).1@,
                        ).contains(s);
                    assert(self.per_session@[t] == prevseq[t]);
                    assert(view_strings(self.per_session@[t].1@).contains(s));
                }
            }
        }
    }

    /// Whether a peer reference is currently cached for a session.
    pub fn has_peer(&self, sid: &str) -> (r: bool)
        ensures
            r == self.spec_has_peer(sid@),
    {
        crate::text::strings_contain(&self.peers, sid)
    }

    /// Whether any source currently retains per-session state for a
    /// session.
    pub fn retains_session(&self, sid: &str) -> (r: bool)
        ensures
            r == self.spec_retains_session(sid@),
    {
        let n = self.per_session.len();
        let mut i: usize = 0;
        while i < n
            invariant
                n == self.per_session@.len(),
                i <= n,
                forall|t: int|
                    0 <= t < i ==> !view_strings(
                        (#[trigger] self.per_session@[t]).1@,
                    ).contains(sid@),
            decreases n - i,
        {
            if crate::text::strings_contain(&self.per_session[i].1, sid) {
                return true;
            }
            i = i + 1;
        }
        false
    }

    /// Close a session: drop its cached peer reference and ask every source
    /// to forget its per-session state. Afterwards no source retains state
    /// for the session and the peer table holds no reference to it.
    pub fn close_session(&mut self, sid: &str)
        ensures
            !final(self).spec_has_peer(sid@),
            !final(self).spec_retains_session(sid@),
            forall|s: Seq<char>|
                s != sid@ ==> (final(self).spec_has_peer(s) <==> old(self).spec_has_peer(s)),
            forall|s: Seq<char>|
                s != sid@ ==> (final(self).spec_retains_session(s) <==> old(
                    self,
                ).spec_retains_session(s)),
    {
        let new_peers = remove_session_id(&self.peers, sid);
        self.peers = new_peers;
        let n = self.per_session.len();
        let mut out: Vec<(String, Vec<String>)> = Vec::new();
        let mut i: usize = 0;
        while i < n
            invariant
                n == self.per_session@.len(),
                i <= n,
                out@.len() == i,
                forall|t: int|
                    0 <= t < i ==> (#[trigger] out@[t]).0@ == self.per_session@[t].0@
                        && !view_strings(out@[t].1@).contains(sid@) && (forall|x: Seq<char>|
                        x != sid@ ==> (view_strings((#[trigger] out@[t]).1@).contains(x)
                            <==> view_strings(self.per_session@[t].1@).contains(x))),
            decreases n - i,
        {
            let key = self.per_session[i].0.clone();
            let filtered = remove_session_id(&self.per_session[i].1, sid);
            out.push((key, filtered));
            i = i + 1;
        }
        self.per_session = out;
        proof {
            assert forall|s: Seq<char>|
                s != sid@ implies (self.spec_retains_session(s) <==> old(
                self,
            ).spec_retains_session(s)) by {
                if old(self).spec_retains_session(s) {
                    let t = choose|t: int|
                        0 <= t < old(self).per_session@.len() && view_strings(
                            (#[trigger] old(self).per_session@[t]).1@,
                        ).contains(s);
                    assert(view_strings(self.per_session@[t].1@).contains(s));
                }
                if self.spec_retains_session(s) {
                    let t = choose|t: int|
                        0 <= t < self.per_session@.len() && view_strings(
                            (#[trigger] self.per_session@[t]).1@,
                        ).contains(s);
                    assert(view_strings(old(self).per_session@[t].1@).contains(s));
                }
            }
        }
    }
}

} // verus!
