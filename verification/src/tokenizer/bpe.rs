//! A byte-pair-encoding tokenizer over characters.

use std::collections::HashMap;
use vstd::hash_map::StringHashMap;
use vstd::prelude::*;

use crate::text::{chars_of, push_char};

verus! {

broadcast use vstd::std_specs::hash::group_hash_axioms;

/// The table key of an ordered pair of token ids.
pub open spec fn pair_key(a: u32, b: u32) -> u64 {
    (a as int * 0x1_0000_0000 + b as int) as u64
}

proof fn lemma_pair_key(a: u32, b: u32, c: u32, d: u32)
    ensures
        a as int * 0x1_0000_0000 + b as int <= u64::MAX,
        pair_key(a, b) == pair_key(c, d) ==> a == c && b == d,
{
}

/// Merge rules: an ordered pair of token ids maps to the id of the merged
/// token.
///
/// The pair is stored as one `u64` key (`pair_key`): vstd specifies
/// `HashMap` only for key types that obey its key model, which it grants
/// to integer keys and not to tuples.
pub struct MergeTable {
    table: HashMap<u64, u32>,
}

impl View for MergeTable {
    type V = Map<(u32, u32), u32>;

    closed spec fn view(&self) -> Map<(u32, u32), u32> {
        Map::new(
            |p: (u32, u32)| self.table@.contains_key(pair_key(p.0, p.1)),
            |p: (u32, u32)| self.table@[pair_key(p.0, p.1)],
        )
    }
}

fn key_of(a: u32, b: u32) -> (k: u64)
    ensures
        k == pair_key(a, b),
{
    proof {
        lemma_pair_key(a, b, a, b);
    }
    (a as u64) * 0x1_0000_0000u64 + (b as u64)
}

impl MergeTable {
    /// An empty table.
    pub fn new() -> (t: Self)
        ensures
            t@ == Map::<(u32, u32), u32>::empty(),
    {
        let t = MergeTable { table: HashMap::new() };
        assert(t@ =~= Map::<(u32, u32), u32>::empty());
        t
    }

    /// Records that `pair` merges into `merged`, replacing any earlier rule
    /// for the same pair.
    pub fn insert(&mut self, pair: (u32, u32), merged: u32)
        ensures
            final(self)@ == old(self)@.insert(pair, merged),
    {
        let k = key_of(pair.0, pair.1);
        self.table.insert(k, merged);
        proof {
            assert forall|p: (u32, u32)| #![auto]
                self.table@.contains_key(pair_key(p.0, p.1)) == old(self)@.insert(
                    pair,
                    merged,
                ).contains_key(p) by {
                lemma_pair_key(p.0, p.1, pair.0, pair.1);
            }
            assert forall|p: (u32, u32)| #![auto]
                self.table@.contains_key(pair_key(p.0, p.1)) ==> self.table@[pair_key(p.0, p.1)]
                    == old(self)@.insert(pair, merged)[p] by {
                lemma_pair_key(p.0, p.1, pair.0, pair.1);
            }
            assert(self@ =~= old(self)@.insert(pair, merged));
        }
    }

    /// The id that `pair` merges into, if there is a rule for it.
    pub fn get(&self, pair: &(u32, u32)) -> (r: Option<&u32>)
        ensures
            match r {
                Some(m) => self@.contains_key(*pair) && *m == self@[*pair],
                None => !self@.contains_key(*pair),
            },
    {
        let k = key_of(pair.0, pair.1);
        self.table.get(&k)
    }
}

/// A character-level byte-pair-encoding tokenizer.
pub struct BpeTokenizer {
    /// Maps a string token to its id.
    pub vocab: StringHashMap<u32>,
    /// Maps an id to its string (the reverse of `vocab`).
    pub id_to_token: HashMap<u32, String>,
    /// Merge rules: a pair of ids maps to the merged id.
    pub merges: MergeTable,
    /// Special tokens for reasoning and tool use (such as `<think>`).
    pub special_tokens: StringHashMap<u32>,
}

/// The text of one id: its string if the id is known, else nothing.
pub open spec fn token_text(id_to_token: Map<u32, String>, id: u32) -> Seq<char> {
    if id_to_token.contains_key(id) {
        id_to_token[id]@
    } else {
        Seq::empty()
    }
}

/// The text of a sequence of ids: the texts of the known ids, in order.
pub open spec fn decode_ids(id_to_token: Map<u32, String>, ids: Seq<u32>) -> Seq<char>
    decreases ids.len(),
{
    if ids.len() == 0 {
        Seq::empty()
    } else {
        decode_ids(id_to_token, ids.drop_last()) + token_text(id_to_token, ids.last())
    }
}

/// The id of a single character: its vocabulary entry, or 0 (unknown).
pub open spec fn char_id(vocab: Map<Seq<char>, u32>, c: char) -> u32 {
    if vocab.contains_key(seq![c]) {
        vocab[seq![c]]
    } else {
        0
    }
}

/// The ids of the characters of `text`, before any merge.
pub open spec fn initial_ids(vocab: Map<Seq<char>, u32>, text: Seq<char>) -> Seq<u32> {
    text.map_values(|c: char| char_id(vocab, c))
}

/// Whether the pair at `i`, `i + 1` of `ids` has a merge rule.
pub open spec fn mergeable_at(merges: Map<(u32, u32), u32>, ids: Seq<u32>, i: int) -> bool {
    0 <= i && i + 1 < ids.len() && merges.contains_key((ids[i], ids[i + 1]))
}

/// One left-to-right pass: each pair with a rule, met while scanning, is
/// replaced by its merged id, and the scan continues after it.
pub open spec fn merge_pass(merges: Map<(u32, u32), u32>, ids: Seq<u32>) -> Seq<u32>
    decreases ids.len(),
{
    if ids.len() == 0 {
        Seq::empty()
    } else if mergeable_at(merges, ids, 0) {
        seq![merges[(ids[0], ids[1])]] + merge_pass(merges, ids.skip(2))
    } else {
        seq![ids[0]] + merge_pass(merges, ids.skip(1))
    }
}

/// Whether some adjacent pair of `ids` has a merge rule.
pub open spec fn has_mergeable_pair(merges: Map<(u32, u32), u32>, ids: Seq<u32>) -> bool {
    exists|i: int| mergeable_at(merges, ids, i)
}

pub proof fn lemma_skip_mergeable(merges: Map<(u32, u32), u32>, ids: Seq<u32>, k: int)
    requires
        0 <= k <= ids.len(),
    ensures
        forall|i: int|
            0 <= i ==> (mergeable_at(merges, ids.skip(k), i) <==> mergeable_at(merges, ids, i + k)),
{
    assert forall|i: int| 0 <= i implies mergeable_at(merges, ids.skip(k), i) <==> mergeable_at(
        merges,
        ids,
        i + k,
    ) by {
        if 0 <= i && i + 1 < ids.skip(k).len() {
            assert(ids.skip(k)[i] == ids[i + k]);
            assert(ids.skip(k)[i + 1] == ids[i + k + 1]);
        }
    }
}

/// A pass shortens the sequence exactly when it merges something, and
/// leaves it unchanged otherwise.
pub proof fn lemma_merge_pass_len(merges: Map<(u32, u32), u32>, ids: Seq<u32>)
    ensures
        merge_pass(merges, ids).len() <= ids.len(),
        has_mergeable_pair(merges, ids) ==> merge_pass(merges, ids).len() < ids.len(),
        !has_mergeable_pair(merges, ids) ==> merge_pass(merges, ids) == ids,
    decreases ids.len(),
{
    if ids.len() == 0 {
    } else if mergeable_at(merges, ids, 0) {
        lemma_merge_pass_len(merges, ids.skip(2));
    } else {
        lemma_merge_pass_len(merges, ids.skip(1));
        lemma_skip_mergeable(merges, ids, 1);
        if has_mergeable_pair(merges, ids) {
            let i = choose|i: int| mergeable_at(merges, ids, i);
            assert(mergeable_at(merges, ids.skip(1), i - 1));
        }
        if !has_mergeable_pair(merges, ids) {
            assert(!has_mergeable_pair(merges, ids.skip(1))) by {
                if has_mergeable_pair(merges, ids.skip(1)) {
                    let i = choose|i: int| mergeable_at(merges, ids.skip(1), i);
                    assert(mergeable_at(merges, ids, i + 1));
                }
            }
            assert(seq![ids[0]] + ids.skip(1) =~= ids);
        }
    }
}

/// Passes repeated until one merges nothing.
pub open spec fn merge_until_stable(merges: Map<(u32, u32), u32>, ids: Seq<u32>) -> Seq<u32>
    decreases ids.len(),
{
    if ids.len() >= 2 && has_mergeable_pair(merges, ids) {
        proof {
            lemma_merge_pass_len(merges, ids);
        }
        merge_until_stable(merges, merge_pass(merges, ids))
    } else {
        ids
    }
}

/// What `encode` returns: the character ids of `text`, merged until no
/// adjacent pair has a rule.
pub open spec fn encode_text(
    vocab: Map<Seq<char>, u32>,
    merges: Map<(u32, u32), u32>,
    text: Seq<char>,
) -> Seq<u32> {
    merge_until_stable(merges, initial_ids(vocab, text))
}

impl BpeTokenizer {
    /// An empty tokenizer.
    pub fn new() -> (t: Self)
        ensures
            t.vocab@ == Map::<Seq<char>, u32>::empty(),
            t.id_to_token@ == Map::<u32, String>::empty(),
            t.merges@ == Map::<(u32, u32), u32>::empty(),
            t.special_tokens@ == Map::<Seq<char>, u32>::empty(),
    {
        BpeTokenizer {
            vocab: StringHashMap::new(),
            id_to_token: HashMap::new(),
            merges: MergeTable::new(),
            special_tokens: StringHashMap::new(),
        }
    }

    /// Adds a special token: it becomes a special token, a vocabulary
    /// entry and the string of `id`.
    pub fn add_special_token(&mut self, token: &str, id: u32)
        ensures
            final(self).special_tokens@ == old(self).special_tokens@.insert(token@, id),
            final(self).vocab@ == old(self).vocab@.insert(token@, id),
            final(self).id_to_token@.dom() == old(self).id_to_token@.dom().insert(id),
            final(self).id_to_token@[id]@ == token@,
            forall|k: u32|
                k != id && #[trigger] old(self).id_to_token@.contains_key(k)
                    ==> final(self).id_to_token@[k] == old(self).id_to_token@[k],
            final(self).merges@ == old(self).merges@,
    {
        self.special_tokens.insert(token.to_owned(), id);
        self.vocab.insert(token.to_owned(), id);
        self.id_to_token.insert(id, token.to_owned());
    }

    /// The id of one character (0 when it has no vocabulary entry).
    fn char_to_id(&self, c: char) -> (id: u32)
        ensures
            id == char_id(self.vocab@, c),
    {
        let mut s = String::new();
        push_char(&mut s, c);
        assert(s@ =~= seq![c]);
        match self.vocab.get(s.as_str()) {
            Some(id) => *id,
            None => 0,
        }
    }

    /// One merge pass over `ids`; also says whether anything merged.
    fn merge_once(&self, ids: &Vec<u32>) -> (r: (Vec<u32>, bool))
        ensures
            r.0@ == merge_pass(self.merges@, ids@),
            r.1 == has_mergeable_pair(self.merges@, ids@),
    {
        let ghost merges = self.merges@;
        let mut next: Vec<u32> = Vec::new();
        let mut merged_once = false;
        let mut i: usize = 0;
        assert(ids@.skip(0) =~= ids@);
        while i < ids.len()
            invariant
                merges == self.merges@,
                i <= ids.len(),
                next@ + merge_pass(merges, ids@.skip(i as int)) == merge_pass(merges, ids@),
                has_mergeable_pair(merges, ids@) == (merged_once || has_mergeable_pair(
                    merges,
                    ids@.skip(i as int),
                )),
            decreases ids.len() - i,
        {
            let ghost rest = ids@.skip(i as int);
            proof {
                lemma_skip_mergeable(merges, ids@, i as int);
            }
            if i + 1 < ids.len() {
                let pair = (ids[i], ids[i + 1]);
                match self.merges.get(&pair) {
                    Some(m) => {
                        assert(mergeable_at(merges, rest, 0));
                        assert(rest.skip(2) =~= ids@.skip(i + 2));
                        next.push(*m);
                        i = i + 2;
                        merged_once = true;
                        continue;
                    },
                    None => {},
                }
            }
            assert(!mergeable_at(merges, rest, 0));
            assert(rest.skip(1) =~= ids@.skip(i + 1));
            proof {
                lemma_skip_mergeable(merges, rest, 1);
                if has_mergeable_pair(merges, rest) {
                    let j = choose|j: int| mergeable_at(merges, rest, j);
                    assert(mergeable_at(merges, rest.skip(1), j - 1));
                }
                if has_mergeable_pair(merges, rest.skip(1)) {
                    let j = choose|j: int| mergeable_at(merges, rest.skip(1), j);
                    assert(mergeable_at(merges, rest, j + 1));
                }
            }
            next.push(ids[i]);
            i = i + 1;
        }
        assert(ids@.skip(i as int) =~= Seq::<u32>::empty());
        assert(!has_mergeable_pair(merges, Seq::<u32>::empty()));
        assert(next@ + Seq::<u32>::empty() =~= next@);
        (next, merged_once)
    }

    /// Encodes a text into token ids: each character becomes its
    /// vocabulary id (0 when unknown), then merge passes run until one
    /// merges nothing.
    pub fn encode(&self, text: &str) -> (ids: Vec<u32>)
        ensures
            ids@ == encode_text(self.vocab@, self.merges@, text@),
    {
        let chars = chars_of(text);
        let mut current: Vec<u32> = Vec::new();
        let mut i: usize = 0;
        while i < chars.len()
            invariant
                chars@ == text@,
                i <= chars.len(),
                current@ == initial_ids(self.vocab@, text@).take(i as int),
            decreases chars.len() - i,
        {
            let id = self.char_to_id(chars[i]);
            current.push(id);
            i = i + 1;
            assert(current@ =~= initial_ids(self.vocab@, text@).take(i as int));
        }
        assert(current@ =~= initial_ids(self.vocab@, text@));
        loop
            invariant
                merge_until_stable(self.merges@, current@) == encode_text(
                    self.vocab@,
                    self.merges@,
                    text@,
                ),
            ensures
                merge_until_stable(self.merges@, current@) == current@,
            decreases current.len(),
        {
            if current.len() < 2 {
                break;
            }
            let (next, merged_once) = self.merge_once(&current);
            proof {
                lemma_merge_pass_len(self.merges@, current@);
            }
            if !merged_once {
                current = next;
                break;
            }
            current = next;
        }
        current
    }

    /// Decodes token ids into text: the strings of the known ids, in
    /// order; unknown ids are skipped.
    pub fn decode(&self, ids: &[u32]) -> (text: String)
        ensures
            text@ == decode_ids(self.id_to_token@, ids@),
    {
        let mut text = String::new();
        let mut i: usize = 0;
        while i < ids.len()
            invariant
                i <= ids.len(),
                text@ == decode_ids(self.id_to_token@, ids@.take(i as int)),
            decreases ids.len() - i,
        {
            assert(ids@.take(i + 1).drop_last() =~= ids@.take(i as int));
            match self.id_to_token.get(&ids[i]) {
                Some(token) => {
                    text.append(token.as_str());
                },
                None => {},
            }
            i = i + 1;
        }
        assert(ids@.take(ids.len() as int) =~= ids@);
        text
    }
}


/// Every merge rule is faithful to the text: the merged id spells the two
/// ids it replaces, one after the other.
pub open spec fn merges_spell_pairs(id_to_token: Map<u32, String>, merges: Map<(u32, u32), u32>) -> bool {
    forall|p: (u32, u32)| #[trigger]
        merges.contains_key(p) ==> token_text(id_to_token, merges[p]) == token_text(
            id_to_token,
            p.0,
        ) + token_text(id_to_token, p.1)
}

/// Every character of `text` has an id that spells exactly that character.
pub open spec fn chars_spelled(
    vocab: Map<Seq<char>, u32>,
    id_to_token: Map<u32, String>,
    text: Seq<char>,
) -> bool {
    forall|i: int|
        0 <= i < text.len() ==> token_text(id_to_token, char_id(vocab, #[trigger] text[i]))
            == seq![text[i]]
}

/// Decoding distributes over concatenation: the text of `a + b` is the
/// text of `a` followed by the text of `b`.
pub proof fn law_decode_concat(id_to_token: Map<u32, String>, a: Seq<u32>, b: Seq<u32>)
    ensures
        decode_ids(id_to_token, a + b) == decode_ids(id_to_token, a) + decode_ids(id_to_token, b),
    decreases b.len(),
{
    if b.len() == 0 {
        assert(a + b =~= a);
        assert(decode_ids(id_to_token, a) + Seq::<char>::empty() =~= decode_ids(id_to_token, a));
    } else {
        assert((a + b).drop_last() =~= a + b.drop_last());
        assert((a + b).last() == b.last());
        law_decode_concat(id_to_token, a, b.drop_last());
        assert(decode_ids(id_to_token, a) + decode_ids(id_to_token, b.drop_last()) + token_text(
            id_to_token,
            b.last(),
        ) =~= decode_ids(id_to_token, a) + (decode_ids(id_to_token, b.drop_last()) + token_text(
            id_to_token,
            b.last(),
        )));
    }
}

proof fn lemma_decode_cons(id_to_token: Map<u32, String>, x: u32, rest: Seq<u32>)
    ensures
        decode_ids(id_to_token, seq![x] + rest) == token_text(id_to_token, x) + decode_ids(
            id_to_token,
            rest,
        ),
{
    law_decode_concat(id_to_token, seq![x], rest);
    assert(seq![x].drop_last() =~= Seq::<u32>::empty());
    assert(decode_ids(id_to_token, Seq::<u32>::empty()) == Seq::<char>::empty());
    assert(decode_ids(id_to_token, seq![x]) == decode_ids(id_to_token, seq![x].drop_last())
        + token_text(id_to_token, x));
    assert(Seq::<char>::empty() + token_text(id_to_token, x) =~= token_text(id_to_token, x));
}

/// With faithful merge rules, one pass leaves the decoded text unchanged.
pub proof fn lemma_merge_pass_keeps_text(
    id_to_token: Map<u32, String>,
    merges: Map<(u32, u32), u32>,
    ids: Seq<u32>,
)
    requires
        merges_spell_pairs(id_to_token, merges),
    ensures
        decode_ids(id_to_token, merge_pass(merges, ids)) == decode_ids(id_to_token, ids),
    decreases ids.len(),
{
    if ids.len() == 0 {
    } else if mergeable_at(merges, ids, 0) {
        let m = merges[(ids[0], ids[1])];
        lemma_merge_pass_keeps_text(id_to_token, merges, ids.skip(2));
        lemma_decode_cons(id_to_token, m, merge_pass(merges, ids.skip(2)));
        assert(ids =~= seq![ids[0]] + (seq![ids[1]] + ids.skip(2)));
        lemma_decode_cons(id_to_token, ids[0], seq![ids[1]] + ids.skip(2));
        lemma_decode_cons(id_to_token, ids[1], ids.skip(2));
        assert(token_text(id_to_token, m) == token_text(id_to_token, ids[0]) + token_text(
            id_to_token,
            ids[1],
        ));
        assert(token_text(id_to_token, ids[0]) + token_text(id_to_token, ids[1]) + decode_ids(
            id_to_token,
            ids.skip(2),
        ) =~= token_text(id_to_token, ids[0]) + (token_text(id_to_token, ids[1]) + decode_ids(
            id_to_token,
            ids.skip(2),
        )));
    } else {
        lemma_merge_pass_keeps_text(id_to_token, merges, ids.skip(1));
        lemma_decode_cons(id_to_token, ids[0], merge_pass(merges, ids.skip(1)));
        assert(ids =~= seq![ids[0]] + ids.skip(1));
        lemma_decode_cons(id_to_token, ids[0], ids.skip(1));
    }
}

proof fn lemma_stable_keeps_text(
    id_to_token: Map<u32, String>,
    merges: Map<(u32, u32), u32>,
    ids: Seq<u32>,
)
    requires
        merges_spell_pairs(id_to_token, merges),
    ensures
        decode_ids(id_to_token, merge_until_stable(merges, ids)) == decode_ids(id_to_token, ids),
    decreases ids.len(),
{
    if ids.len() >= 2 && has_mergeable_pair(merges, ids) {
        lemma_merge_pass_len(merges, ids);
        lemma_merge_pass_keeps_text(id_to_token, merges, ids);
        lemma_stable_keeps_text(id_to_token, merges, merge_pass(merges, ids));
    }
}

proof fn lemma_initial_ids_spell(
    vocab: Map<Seq<char>, u32>,
    id_to_token: Map<u32, String>,
    text: Seq<char>,
)
    requires
        chars_spelled(vocab, id_to_token, text),
    ensures
        decode_ids(id_to_token, initial_ids(vocab, text)) == text,
    decreases text.len(),
{
    if text.len() > 0 {
        let pre = text.drop_last();
        assert forall|i: int| 0 <= i < pre.len() implies token_text(
            id_to_token,
            char_id(vocab, #[trigger] pre[i]),
        ) == seq![pre[i]] by {
            assert(pre[i] == text[i]);
        }
        lemma_initial_ids_spell(vocab, id_to_token, pre);
        assert(initial_ids(vocab, text).drop_last() =~= initial_ids(vocab, pre));
        assert(token_text(id_to_token, char_id(vocab, text[text.len() - 1])) == seq![
            text[text.len() - 1],
        ]);
        assert(pre + seq![text.last()] =~= text);
    } else {
        assert(text =~= Seq::<char>::empty());
    }
}

/// Decoding inverts encoding: when every character of `text` has an id
/// that spells it and every merge rule spells the pair it merges,
/// `decode(encode(text))` gives `text` back.
pub proof fn law_decode_inverts_encode(t: BpeTokenizer, text: Seq<char>)
    requires
        chars_spelled(t.vocab@, t.id_to_token@, text),
        merges_spell_pairs(t.id_to_token@, t.merges@),
    ensures
        decode_ids(t.id_to_token@, encode_text(t.vocab@, t.merges@, text)) == text,
{
    lemma_initial_ids_spell(t.vocab@, t.id_to_token@, text);
    lemma_stable_keeps_text(t.id_to_token@, t.merges@, initial_ids(t.vocab@, text));
}

/// Encoding merges as far as the rules allow: no adjacent pair of ids in
/// the result has a merge rule, and the result is never longer than the
/// text.
pub proof fn law_encode_is_stable(t: BpeTokenizer, text: Seq<char>)
    ensures
        forall|i: int| !mergeable_at(t.merges@, encode_text(t.vocab@, t.merges@, text), i),
        encode_text(t.vocab@, t.merges@, text).len() <= text.len(),
{
    lemma_stable_is_stable(t.merges@, initial_ids(t.vocab@, text));
}

proof fn lemma_stable_is_stable(merges: Map<(u32, u32), u32>, ids: Seq<u32>)
    ensures
        !has_mergeable_pair(merges, merge_until_stable(merges, ids)),
        merge_until_stable(merges, ids).len() <= ids.len(),
    decreases ids.len(),
{
    if ids.len() >= 2 && has_mergeable_pair(merges, ids) {
        lemma_merge_pass_len(merges, ids);
        lemma_stable_is_stable(merges, merge_pass(merges, ids));
    } else if ids.len() < 2 {
        assert forall|i: int| !mergeable_at(merges, ids, i) by {}
    }
}

} // verus!
