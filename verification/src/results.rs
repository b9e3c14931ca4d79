//! Episode logs of the experiment: one text buffer per episode, written into
//! while the episode runs and filed away when the recorder moves to another
//! episode.  Writing the collected logs to disk is the caller's business.

use vstd::prelude::*;

use std::collections::HashMap;

verus! {

broadcast use vstd::std_specs::hash::group_hash_axioms;

/// The experiment's log recorder: the episode being written, its growing
/// buffer, and the filed logs of the episodes left earlier.
pub struct ExperimentResults {
    /// The episode a write records to.
    pub cur_episode: u64,
    /// The log of the current episode, so far.
    pub episode_buffer: Vec<u8>,
    /// The filed log of each episode.
    pub logs: HashMap<u64, Vec<u8>>,
}

impl ExperimentResults {
    /// The filed logs, each as its text.
    pub open spec fn spec_logs(&self) -> Map<u64, Seq<u8>> {
        self.logs@.map_values(|v: Vec<u8>| v@)
    }

    /// A fresh recorder, at episode zero with nothing written.
    pub fn new() -> (r: Self)
        ensures
            r.cur_episode == 0,
            r.episode_buffer@ == Seq::<u8>::empty(),
            r.spec_logs() == Map::<u64, Seq<u8>>::empty(),
    {
        let r = ExperimentResults {
            cur_episode: 0,
            episode_buffer: Vec::new(),
            logs: HashMap::new(),
        };
        proof {
            assert(r.spec_logs() =~= Map::<u64, Seq<u8>>::empty());
        }
        r
    }

    /// Appends text to the current episode's buffer.
    pub fn append(&mut self, text: &[u8])
        ensures
            final(self).cur_episode == old(self).cur_episode,
            final(self).episode_buffer@ == old(self).episode_buffer@ + text@,
            final(self).spec_logs() == old(self).spec_logs(),
    {
        let mut i: usize = 0;
        while i < text.len()
            invariant
                0 <= i <= text@.len(),
                self.cur_episode == old(self).cur_episode,
                self.spec_logs() == old(self).spec_logs(),
                self.episode_buffer@ =~= old(self).episode_buffer@ + text@.take(i as int),
            decreases text@.len() - i,
        {
            self.episode_buffer.push(text[i]);
            proof {
                assert(self.episode_buffer@ =~= old(self).episode_buffer@ + text@.take(
                    i as int + 1,
                ));
            }
            i = i + 1;
        }
        proof {
            assert(text@.take(text@.len() as int) =~= text@);
        }
    }

    /// Moves the recorder to an episode.
    ///
    /// Leaving the current episode files its buffer; the recorder then picks
    /// up the named episode's filed log, or an empty buffer if it has none.
    /// Naming the current episode again also reloads its filed log: a buffer
    /// never filed with [`ExperimentResults::finish`] is dropped then.
    pub fn set_episode(&mut self, ep: u64)
        ensures
            final(self).cur_episode == ep,
            final(self).spec_logs() == (if ep != old(self).cur_episode {
                old(self).spec_logs().insert(old(self).cur_episode, old(self).episode_buffer@)
            } else {
                old(self).spec_logs()
            }),
            final(self).episode_buffer@ == (if final(self).spec_logs().contains_key(ep) {
                final(self).spec_logs()[ep]
            } else {
                Seq::<u8>::empty()
            }),
    {
        if ep != self.cur_episode {
            let buf = clone_buffer(&self.episode_buffer);
            let ghost before = self.logs@;
            self.logs.insert(self.cur_episode, buf);
            proof {
                lemma_log_views_insert(before, self.cur_episode, buf);
            }
        }
        self.cur_episode = ep;
        self.episode_buffer = match self.logs.get(&ep) {
            Option::Some(buf) => clone_buffer(buf),
            Option::None => Vec::new(),
        };
    }

    /// Files the current episode's buffer.
    pub fn finish(&mut self)
        ensures
            final(self).cur_episode == old(self).cur_episode,
            final(self).episode_buffer@ == old(self).episode_buffer@,
            final(self).spec_logs() == old(self).spec_logs().insert(
                old(self).cur_episode,
                old(self).episode_buffer@,
            ),
    {
        let buf = clone_buffer(&self.episode_buffer);
        let ghost before = self.logs@;
        self.logs.insert(self.cur_episode, buf);
        proof {
            lemma_log_views_insert(before, self.cur_episode, buf);
        }
    }

    /// The filed log of an episode, if it has one.
    pub fn log_of(&self, ep: u64) -> (r: Option<&Vec<u8>>)
        ensures
            match r {
                Option::Some(buf) => self.spec_logs().contains_key(ep) && buf@ == self.spec_logs()[
                    ep
                ],
                Option::None => !self.spec_logs().contains_key(ep),
            },
    {
        self.logs.get(&ep)
    }
}

/// Filing a buffer adds its text to the filed views.
proof fn lemma_log_views_insert(m: Map<u64, Vec<u8>>, k: u64, v: Vec<u8>)
    ensures
        m.insert(k, v).map_values(|t: Vec<u8>| t@) =~= m.map_values(|t: Vec<u8>| t@).insert(
            k,
            v@,
        ),
{
}

fn clone_buffer(t: &Vec<u8>) -> (r: Vec<u8>)
    ensures
        r@ == t@,
{
    let mut r: Vec<u8> = Vec::new();
    let mut i: usize = 0;
    while i < t.len()
        invariant
            0 <= i <= t@.len(),
            r@ =~= t@.take(i as int),
        decreases t@.len() - i,
    {
        r.push(t[i]);
        proof {
            assert(r@ =~= t@.take(i as int + 1));
        }
        i = i + 1;
    }
    proof {
        assert(r@ =~= t@);
    }
    r
}

} // verus!
