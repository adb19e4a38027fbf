//! When greedy generation stops: after at most a given number of tokens,
//! and right after the stop token.

use vstd::prelude::*;

verus! {

/// The tokens generated so far and the limits that end generation.
pub struct Generation {
    /// The tokens generated so far, in order.
    pub generated: Vec<u32>,
    /// The most tokens to generate.
    pub max_tokens: usize,
    /// The token after which generation stops, if any.
    pub stop_token: Option<u32>,
    /// Whether generation is over.
    pub finished: bool,
}

/// Whether generation is over once `generated` has been produced: the
/// limit is reached, or the last token is the stop token.
pub open spec fn finished_after(generated: Seq<u32>, max_tokens: nat, stop: Option<u32>) -> bool {
    generated.len() >= max_tokens || (generated.len() > 0 && stop == Some(generated.last()))
}

impl Generation {
    /// What every state of a generation satisfies: no more than
    /// `max_tokens` tokens, the stop token at most as the last one, and
    /// `finished` exactly when generation is over.
    pub open spec fn valid(&self) -> bool {
        &&& self.generated@.len() <= self.max_tokens
        &&& forall|i: int|
            0 <= i < self.generated@.len() - 1 ==> self.stop_token != Some(
                #[trigger] self.generated@[i],
            )
        &&& self.finished == finished_after(self.generated@, self.max_tokens as nat, self.stop_token)
    }

    /// A generation of at most `max_tokens` tokens that stops after
    /// `stop_token`; nothing is generated yet.
    pub fn new(max_tokens: usize, stop_token: Option<u32>) -> (g: Self)
        ensures
            g.valid(),
            g.generated@ == Seq::<u32>::empty(),
            g.max_tokens == max_tokens,
            g.stop_token == stop_token,
            g.finished == (max_tokens == 0),
    {
        Generation { generated: Vec::new(), max_tokens, stop_token, finished: max_tokens == 0 }
    }

    /// Records the next token; generation is then over if the limit is
    /// reached or the token is the stop token.
    pub fn accept(&mut self, token: u32)
        requires
            old(self).valid(),
            !old(self).finished,
        ensures
            final(self).valid(),
            final(self).generated@ == old(self).generated@.push(token),
            final(self).max_tokens == old(self).max_tokens,
            final(self).stop_token == old(self).stop_token,
            final(self).finished == (final(self).generated@.len() >= old(self).max_tokens || old(
                self,
            ).stop_token == Some(token)),
    {
        self.generated.push(token);
        let at_stop = match self.stop_token {
            Some(s) => s == token,
            None => false,
        };
        self.finished = self.generated.len() >= self.max_tokens || at_stop;
        proof {
            let g = self.generated@;
            assert(g.last() == token);
            assert forall|i: int| 0 <= i < g.len() - 1 implies self.stop_token != Some(
                #[trigger] g[i],
            ) by {
                assert(g[i] == old(self).generated@[i]);
                if i == g.len() - 2 {
                    assert(old(self).generated@.last() == g[i]);
                }
            }
        }
    }
}

} // verus!
