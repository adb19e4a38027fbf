//! Building a tokenizer's vocabulary: from the entries of a
//! `tokenizer.json`, or the byte-level fallback; and showing ids as text.

use vstd::prelude::*;

use crate::chat::{clean_token, clean_token_text};
use crate::text::{decimal, decimal_string, push_char};
use crate::tokenizer::bpe::{
    BpeTokenizer, char_id, chars_spelled, decode_ids, encode_text, law_decode_inverts_encode,
    merges_spell_pairs, token_text,
};

verus! {

broadcast use vstd::std_specs::hash::group_hash_axioms;

/// Whether the strings of `m` spell `expected`: same ids, and each string
/// has the expected characters.
pub open spec fn spells(m: Map<u32, String>, expected: Map<u32, Seq<char>>) -> bool {
    &&& m.dom() == expected.dom()
    &&& forall|k: u32| #[trigger] m.contains_key(k) ==> m[k]@ == expected[k]
}

/// The lowercase hexadecimal digit for `d` (below 16).
pub open spec fn hex_lower(d: int) -> char {
    if d < 10 {
        (48 + d) as char
    } else {
        (87 + d) as char
    }
}

/// The fallback token of byte `b`: the character itself for ASCII, else
/// `\xNN` with two lowercase hexadecimal digits.
pub open spec fn byte_token(b: int) -> Seq<char> {
    if b < 128 {
        seq![b as char]
    } else {
        seq!['\\', 'x', hex_lower(b / 16), hex_lower(b % 16)]
    }
}

/// The fallback vocabulary for bytes below `n`.
pub open spec fn byte_vocab(n: nat) -> Map<Seq<char>, u32>
    decreases n,
{
    if n == 0 {
        Map::empty()
    } else {
        byte_vocab((n - 1) as nat).insert(byte_token(n - 1), (n - 1) as u32)
    }
}

/// The fallback id strings for bytes below `n`.
pub open spec fn byte_strings(n: nat) -> Map<u32, Seq<char>>
    decreases n,
{
    if n == 0 {
        Map::empty()
    } else {
        byte_strings((n - 1) as nat).insert((n - 1) as u32, byte_token(n - 1))
    }
}

/// The special tokens of the fallback tokenizer, with their ids.
pub open spec fn fallback_specials(m: Map<Seq<char>, u32>) -> Map<Seq<char>, u32> {
    m.insert("<unk>"@, 0).insert("<s>"@, 256).insert("</s>"@, 257).insert("<think>"@, 258).insert(
        "</think>"@,
        259,
    )
}

/// The special token strings of the fallback tokenizer, by id.
pub open spec fn fallback_special_strings(m: Map<u32, Seq<char>>) -> Map<u32, Seq<char>> {
    m.insert(0, "<unk>"@).insert(256, "<s>"@).insert(257, "</s>"@).insert(258, "<think>"@).insert(
        259,
        "</think>"@,
    )
}

/// A JSON member that may hold the vocabulary object.
pub enum VocabField {
    /// The member is absent.
    Missing,
    /// The member is present but is not a JSON object.
    NotObject,
    /// The member is an object: its entries, each token with its value
    /// read as an unsigned integer (`None` when it is not one).
    Object(Vec<(String, Option<u64>)>),
}

/// A vocabulary member with its strings taken as characters.
pub enum VocabFieldV {
    Missing,
    NotObject,
    Object(Seq<(Seq<char>, Option<u64>)>),
}

impl View for VocabField {
    type V = VocabFieldV;

    open spec fn view(&self) -> VocabFieldV {
        match self {
            VocabField::Missing => VocabFieldV::Missing,
            VocabField::NotObject => VocabFieldV::NotObject,
            VocabField::Object(e) => VocabFieldV::Object(entries_view(e@)),
        }
    }
}

/// The entries with their strings taken as characters.
pub open spec fn entries_view(e: Seq<(String, Option<u64>)>) -> Seq<(Seq<char>, Option<u64>)> {
    e.map_values(|p: (String, Option<u64>)| (p.0@, p.1))
}

/// The vocabulary read from entries, in order: each entry whose value is
/// an unsigned integer maps its token to that value cut to 32 bits (a
/// later entry for the same token wins).
pub open spec fn entries_vocab(e: Seq<(Seq<char>, Option<u64>)>) -> Map<Seq<char>, u32>
    decreases e.len(),
{
    if e.len() == 0 {
        Map::empty()
    } else {
        let prev = entries_vocab(e.drop_last());
        match e.last().1 {
            Some(id) => prev.insert(e.last().0, id as u32),
            None => prev,
        }
    }
}

/// The id strings read from entries, in order (a later entry for the same
/// id wins).
pub open spec fn entries_strings(e: Seq<(Seq<char>, Option<u64>)>) -> Map<u32, Seq<char>>
    decreases e.len(),
{
    if e.len() == 0 {
        Map::empty()
    } else {
        let prev = entries_strings(e.drop_last());
        match e.last().1 {
            Some(id) => prev.insert(id as u32, e.last().0),
            None => prev,
        }
    }
}

/// Which entries a `tokenizer.json` supplies: `model.vocab` when that
/// member exists (if it is not an object, none), else the top-level
/// `vocab` if it is an object.
pub open spec fn chosen_entries(model_vocab: VocabFieldV, top_vocab: VocabFieldV) -> Option<
    Seq<(Seq<char>, Option<u64>)>,
> {
    match model_vocab {
        VocabFieldV::Object(e) => Some(e),
        VocabFieldV::NotObject => None,
        VocabFieldV::Missing => match top_vocab {
            VocabFieldV::Object(e) => Some(e),
            _ => None,
        },
    }
}

/// What `serde_json` reads from the text of a `tokenizer.json`: `None`
/// when the text is not JSON, else the member `model.vocab` and the
/// top-level member `vocab`, each as the tokenizer reads it.
pub uninterp spec fn tokenizer_json_members(text: Seq<char>) -> Option<(VocabFieldV, VocabFieldV)>;

/// The vocabulary members of a `tokenizer.json` text.
///
/// Parses the text with `serde_json::from_str` into a
/// `serde_json::Value`, then converts the members `model.vocab` and
/// `vocab`: absent, present but not an object, or an object whose entries
/// (in the map's iteration order) pair each key with `as_u64` of its
/// value. The contract names the result (`tokenizer_json_members`), a
/// function of the text; the JSON grammar is not stated.
#[verifier::external_body]
fn parse_tokenizer_json(text: &str) -> (r: Option<(VocabField, VocabField)>)
    ensures
        match r {
            None => tokenizer_json_members(text@) is None,
            Some((m, t)) => tokenizer_json_members(text@) == Some((m@, t@)),
        },
{
    let val: serde_json::Value = serde_json::from_str(text).ok()?;
    let field = |v: Option<&serde_json::Value>| match v.map(|v| v.as_object()) {
        None => VocabField::Missing,
        Some(None) => VocabField::NotObject,
        Some(Some(o)) => VocabField::Object(o.iter().map(|(k, x)| (k.clone(), x.as_u64())).collect()),
    };
    Some((field(val.get("model").and_then(|m| m.get("vocab"))), field(val.get("vocab"))))
}

/// The id a generation stops at: the id of `</s>`, or 257 when the
/// vocabulary has none.
pub open spec fn stop_id(vocab: Map<Seq<char>, u32>) -> u32 {
    if vocab.contains_key("</s>"@) {
        vocab["</s>"@]
    } else {
        257
    }
}

/// How one generated id is shown: its cleaned string, or the id in
/// brackets when it has none.
pub open spec fn shown_id(id_to_token: Map<u32, String>, id: u32) -> Seq<char> {
    if id_to_token.contains_key(id) {
        clean_token_text(id_to_token[id]@)
    } else {
        seq!['['] + decimal(id as nat) + seq![']']
    }
}

/// The text of a reply: the cleaned strings of its known ids, in order.
pub open spec fn reply_text(id_to_token: Map<u32, String>, ids: Seq<u32>) -> Seq<char>
    decreases ids.len(),
{
    if ids.len() == 0 {
        Seq::empty()
    } else {
        reply_text(id_to_token, ids.drop_last()) + (if id_to_token.contains_key(ids.last()) {
            clean_token_text(id_to_token[ids.last()]@)
        } else {
            Seq::empty()
        })
    }
}

fn hex_lower_char(d: u8) -> (c: char)
    requires
        d < 16,
    ensures
        c == hex_lower(d as int),
{
    if d < 10 {
        (48 + d) as char
    } else {
        (87 + d) as char
    }
}

fn byte_token_string(b: u8) -> (s: String)
    ensures
        s@ == byte_token(b as int),
{
    let mut s = String::new();
    if b < 128 {
        push_char(&mut s, b as char);
        assert(s@ =~= byte_token(b as int));
    } else {
        push_char(&mut s, '\\');
        push_char(&mut s, 'x');
        push_char(&mut s, hex_lower_char(b / 16));
        push_char(&mut s, hex_lower_char(b % 16));
        assert(s@ =~= byte_token(b as int));
    }
    s
}

/// Whether `t` is the byte-level fallback tokenizer.
pub open spec fn fallback_tokenizer(t: BpeTokenizer) -> bool {
    &&& t.vocab@ == fallback_specials(byte_vocab(256))
    &&& spells(t.id_to_token@, fallback_special_strings(byte_strings(256)))
    &&& t.special_tokens@ == fallback_specials(Map::empty())
}

impl BpeTokenizer {
    /// The tokenizer used when no `tokenizer.json` can be read: every byte
    /// value 0..=255 is a token (ASCII bytes as their character, others
    /// as `\xNN`), then the special tokens `<unk>` (0), `<s>` (256),
    /// `</s>` (257), `<think>` (258) and `</think>` (259).
    pub fn byte_fallback() -> (t: Self)
        ensures
            t.vocab@ == fallback_specials(byte_vocab(256)),
            spells(t.id_to_token@, fallback_special_strings(byte_strings(256))),
            t.merges@ == Map::<(u32, u32), u32>::empty(),
            t.special_tokens@ == fallback_specials(Map::empty()),
    {
        let mut t = BpeTokenizer::new();
        let mut i: u32 = 0;
        while i < 256
            invariant
                i <= 256,
                t.vocab@ == byte_vocab(i as nat),
                spells(t.id_to_token@, byte_strings(i as nat)),
                t.merges@ == Map::<(u32, u32), u32>::empty(),
                t.special_tokens@ == Map::<Seq<char>, u32>::empty(),
            decreases 256 - i,
        {
            let s = byte_token_string(i as u8);
            let ghost before = t.id_to_token@;
            t.vocab.insert(s.clone(), i);
            t.id_to_token.insert(i, s);
            i = i + 1;
            assert(t.id_to_token@.dom() =~= byte_strings(i as nat).dom());
        }
        t.add_special_token("<unk>", 0);
        t.add_special_token("<s>", 256);
        t.add_special_token("</s>", 257);
        t.add_special_token("<think>", 258);
        t.add_special_token("</think>", 259);
        assert(t.id_to_token@.dom() =~= fallback_special_strings(byte_strings(256)).dom());
        t
    }

    /// A tokenizer whose vocabulary and id strings are read from
    /// `entries`, in order.
    pub fn from_entries(entries: &Vec<(String, Option<u64>)>) -> (t: Self)
        ensures
            t.vocab@ == entries_vocab(entries_view(entries@)),
            spells(t.id_to_token@, entries_strings(entries_view(entries@))),
            t.merges@ == Map::<(u32, u32), u32>::empty(),
            t.special_tokens@ == Map::<Seq<char>, u32>::empty(),
    {
        let mut t = BpeTokenizer::new();
        let mut i: usize = 0;
        while i < entries.len()
            invariant
                i <= entries.len(),
                t.vocab@ == entries_vocab(entries_view(entries@.take(i as int))),
                spells(t.id_to_token@, entries_strings(entries_view(entries@.take(i as int)))),
                t.merges@ == Map::<(u32, u32), u32>::empty(),
                t.special_tokens@ == Map::<Seq<char>, u32>::empty(),
            decreases entries.len() - i,
        {
            let ghost e = entries_view(entries@.take(i + 1));
            assert(e.drop_last() =~= entries_view(entries@.take(i as int)));
            assert(e.last() == (entries@[i as int].0@, entries@[i as int].1));
            let token = &entries[i].0;
            match entries[i].1 {
                Some(id) => {
                    let id32 = id as u32;
                    t.vocab.insert(token.clone(), id32);
                    t.id_to_token.insert(id32, token.clone());
                    assert(t.id_to_token@.dom() =~= entries_strings(e).dom());
                },
                None => {},
            }
            i = i + 1;
        }
        assert(entries@.take(entries.len() as int) =~= entries@);
        t
    }

    /// The tokenizer for a model: built from the vocabulary a
    /// `tokenizer.json` supplies (`model.vocab`, else `vocab`), or the
    /// byte fallback when it supplies none.
    pub fn from_tokenizer_json(model_vocab: VocabField, top_vocab: VocabField) -> (t: Self)
        ensures
            match chosen_entries(model_vocab@, top_vocab@) {
                Some(e) => {
                    &&& t.vocab@ == entries_vocab(e)
                    &&& spells(t.id_to_token@, entries_strings(e))
                    &&& t.special_tokens@ == Map::<Seq<char>, u32>::empty()
                },
                None => {
                    &&& t.vocab@ == fallback_specials(byte_vocab(256))
                    &&& spells(t.id_to_token@, fallback_special_strings(byte_strings(256)))
                    &&& t.special_tokens@ == fallback_specials(Map::empty())
                },
            },
            t.merges@ == Map::<(u32, u32), u32>::empty(),
    {
        match model_vocab {
            VocabField::Object(e) => BpeTokenizer::from_entries(&e),
            VocabField::NotObject => BpeTokenizer::byte_fallback(),
            VocabField::Missing => match top_vocab {
                VocabField::Object(e) => BpeTokenizer::from_entries(&e),
                _ => BpeTokenizer::byte_fallback(),
            },
        }
    }

    /// The tokenizer for the text of a `tokenizer.json`, if one could be
    /// read: the vocabulary of its `model.vocab` or `vocab` member (see
    /// `chosen_entries`), else the byte-level fallback, which is also used
    /// when there is no text or the text is not JSON.
    pub fn tokenizer_from_json_text(text: Option<&str>) -> (t: Self)
        ensures
            match text {
                Some(s) => match tokenizer_json_members(s@) {
                    Some((m, v)) => match chosen_entries(m, v) {
                        Some(e) => {
                            &&& t.vocab@ == entries_vocab(e)
                            &&& spells(t.id_to_token@, entries_strings(e))
                            &&& t.special_tokens@ == Map::<Seq<char>, u32>::empty()
                        },
                        None => fallback_tokenizer(t),
                    },
                    None => fallback_tokenizer(t),
                },
                None => fallback_tokenizer(t),
            },
            t.merges@ == Map::<(u32, u32), u32>::empty(),
    {
        match text {
            Some(s) => match parse_tokenizer_json(s) {
                Some((model_vocab, top_vocab)) => BpeTokenizer::from_tokenizer_json(model_vocab, top_vocab),
                None => BpeTokenizer::byte_fallback(),
            },
            None => BpeTokenizer::byte_fallback(),
        }
    }

    /// The id at which generation stops: that of `</s>`, else 257.
    pub fn stop_token(&self) -> (id: Option<u32>)
        ensures
            id == Some(stop_id(self.vocab@)),
    {
        match self.vocab.get("</s>") {
            Some(id) => Some(*id),
            None => Some(257),
        }
    }

    /// How a generated id is shown while streaming: its cleaned string,
    /// or `[id]` when the id has no string.
    pub fn display_token(&self, id: u32) -> (s: String)
        ensures
            s@ == shown_id(self.id_to_token@, id),
    {
        match self.id_to_token.get(&id) {
            Some(token) => clean_token(token.as_str()),
            None => {
                let mut s = String::new();
                push_char(&mut s, '[');
                let digits = decimal_string(id as u64);
                s.append(digits.as_str());
                push_char(&mut s, ']');
                assert(s@ =~= seq!['['] + decimal(id as nat) + seq![']']);
                s
            },
        }
    }

    /// The text of a reply: the cleaned strings of the known ids, in
    /// order; ids without a string are left out.
    pub fn reply_text(&self, ids: &[u32]) -> (text: String)
        ensures
            text@ == reply_text(self.id_to_token@, ids@),
    {
        let mut text = String::new();
        let mut i: usize = 0;
        while i < ids.len()
            invariant
                i <= ids.len(),
                text@ == reply_text(self.id_to_token@, ids@.take(i as int)),
            decreases ids.len() - i,
        {
            assert(ids@.take(i + 1).drop_last() =~= ids@.take(i as int));
            match self.id_to_token.get(&ids[i]) {
                Some(token) => {
                    let cleaned = clean_token(token.as_str());
                    text.append(cleaned.as_str());
                },
                None => {
                    assert(text@ + Seq::<char>::empty() =~= text@);
                },
            }
            i = i + 1;
        }
        assert(ids@.take(ids.len() as int) =~= ids@);
        text
    }
}

proof fn lemma_byte_vocab_ascii(n: nat, c: char)
    requires
        0 < (c as int) < 128,
        (c as int) < n <= 256,
    ensures
        byte_vocab(n).contains_key(seq![c]),
        byte_vocab(n)[seq![c]] == c as u32,
    decreases n,
{
    let b = n - 1;
    if b == c as int {
        assert(byte_token(b) =~= seq![c]);
    } else {
        lemma_byte_vocab_ascii((n - 1) as nat, c);
        if byte_token(b) == seq![c] {
            if b < 128 {
                assert(byte_token(b)[0] == (b as char));
                assert(seq![c][0] == c);
            } else {
                assert(byte_token(b).len() == 4);
            }
        }
    }
}

proof fn lemma_byte_strings(n: nat, b: u32)
    requires
        b < n <= 256,
    ensures
        byte_strings(n).contains_key(b),
        byte_strings(n)[b] == byte_token(b as int),
    decreases n,
{
    if b != n - 1 {
        lemma_byte_strings((n - 1) as nat, b);
    }
}

/// The byte-level fallback tokenizer gives back any text of ASCII
/// characters other than NUL: decoding the encoding of such a text yields
/// the text.
pub proof fn law_fallback_round_trip(t: BpeTokenizer, text: Seq<char>)
    requires
        t.vocab@ == fallback_specials(byte_vocab(256)),
        spells(t.id_to_token@, fallback_special_strings(byte_strings(256))),
        t.merges@ == Map::<(u32, u32), u32>::empty(),
        forall|i: int| 0 <= i < text.len() ==> 0 < (#[trigger] text[i] as int) < 128,
    ensures
        decode_ids(t.id_to_token@, encode_text(t.vocab@, t.merges@, text)) == text,
{
    reveal_strlit("<unk>");
    reveal_strlit("<s>");
    reveal_strlit("</s>");
    reveal_strlit("<think>");
    reveal_strlit("</think>");
    assert forall|i: int| 0 <= i < text.len() implies token_text(
        t.id_to_token@,
        char_id(t.vocab@, #[trigger] text[i]),
    ) == seq![text[i]] by {
        let c = text[i];
        lemma_byte_vocab_ascii(256, c);
        assert(seq![c].len() == 1);
        assert("<unk>"@.len() == 5);
        assert("<s>"@.len() == 3);
        assert("</s>"@.len() == 4);
        assert("<think>"@.len() == 7);
        assert("</think>"@.len() == 8);
        assert(t.vocab@[seq![c]] == c as u32);
        lemma_byte_strings(256, c as u32);
        assert(byte_token(c as int) =~= seq![c]);
        let strings = fallback_special_strings(byte_strings(256));
        assert(strings[c as u32] == seq![c]);
        assert(t.id_to_token@.contains_key(c as u32));
    }
    assert(chars_spelled(t.vocab@, t.id_to_token@, text));
    assert(merges_spell_pairs(t.id_to_token@, t.merges@));
    law_decode_inverts_encode(t, text);
}

/// Generation stops at the end-of-sequence token: the stop token is the
/// vocabulary's id for `</s>` whenever the vocabulary has one, and 257 only
/// when it has none.
pub proof fn law_stop_token_is_end_of_sequence(vocab: Map<Seq<char>, u32>)
    ensures
        vocab.contains_key("</s>"@) ==> stop_id(vocab) == vocab["</s>"@],
        !vocab.contains_key("</s>"@) ==> stop_id(vocab) == 257,
{
}

/// The vocabulary read from a `tokenizer.json` keeps each entry: a token
/// whose last entry has an unsigned integer value maps to that value (cut
/// to 32 bits), and a token with no such entry is not in the vocabulary.
pub proof fn law_json_vocab_keeps_entries(e: Seq<(Seq<char>, Option<u64>)>, t: Seq<char>)
    ensures
        forall|k: int|
            0 <= k < e.len() && e[k].0 == t && e[k].1 is Some && (forall|l: int|
                k < l < e.len() ==> #[trigger] e[l].0 != t || e[l].1 is None) ==> entries_vocab(
                e,
            ).contains_key(t) && entries_vocab(e)[t] == (#[trigger] e[k].1)->0 as u32,
        (forall|l: int| 0 <= l < e.len() ==> #[trigger] e[l].0 != t || e[l].1 is None)
            ==> !entries_vocab(e).contains_key(t),
    decreases e.len(),
{
    if e.len() > 0 {
        let p = e.drop_last();
        law_json_vocab_keeps_entries(p, t);
        assert forall|k: int|
            0 <= k < e.len() && e[k].0 == t && e[k].1 is Some && (forall|l: int|
                k < l < e.len() ==> #[trigger] e[l].0 != t || e[l].1 is None) implies entries_vocab(
            e,
        ).contains_key(t) && entries_vocab(e)[t] == (#[trigger] e[k].1)->0 as u32 by {
            if k < e.len() - 1 {
                assert(p[k] == e[k]);
                assert forall|l: int| k < l < p.len() implies #[trigger] p[l].0 != t || p[l].1 is None by {
                    assert(p[l] == e[l]);
                }
                assert(e[e.len() - 1].0 != t || e[e.len() - 1].1 is None);
            }
        }
        if forall|l: int| 0 <= l < e.len() ==> #[trigger] e[l].0 != t || e[l].1 is None {
            assert forall|l: int| 0 <= l < p.len() implies #[trigger] p[l].0 != t || p[l].1 is None by {
                assert(p[l] == e[l]);
            }
            assert(e[e.len() - 1].0 != t || e[e.len() - 1].1 is None);
        }
    }
}

} // verus!
