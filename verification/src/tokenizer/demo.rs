//! The demonstration tokenizer of the `tokenize` command: a vocabulary
//! seeded from the characters of the input, two merge rules and the
//! `<think>` special token.

use vstd::prelude::*;

use crate::text::{chars_of, push_char};
use crate::tokenizer::bpe::BpeTokenizer;
use crate::tokenizer::vocab::spells;

verus! {

broadcast use vstd::string::group_string_axioms;

/// The vocabulary seeded from `text`: each distinct character, in order
/// of first appearance, gets the next id from 1 on.
pub open spec fn seed_chars(text: Seq<char>) -> Map<Seq<char>, u32>
    decreases text.len(),
{
    if text.len() == 0 {
        Map::empty()
    } else {
        let m = seed_chars(text.drop_last());
        let k = seq![text.last()];
        if m.contains_key(k) {
            m
        } else {
            m.insert(k, (m.dom().len() + 1) as u32)
        }
    }
}

/// The id strings seeded from `text`, mirroring `seed_chars`.
pub open spec fn seed_strings(text: Seq<char>) -> Map<u32, Seq<char>>
    decreases text.len(),
{
    if text.len() == 0 {
        Map::empty()
    } else {
        let m = seed_chars(text.drop_last());
        let k = seq![text.last()];
        if m.contains_key(k) {
            seed_strings(text.drop_last())
        } else {
            seed_strings(text.drop_last()).insert((m.dom().len() + 1) as u32, k)
        }
    }
}

/// The vocabulary, id strings and merge rules of the demonstration
/// tokenizer for `text`, before `<think>` is added: after the seeded
/// characters, `he` (merging `h` and `e`) takes the next id if both
/// characters occur, and `ll` (merging `l` with itself) the id after that
/// if `l` occurs.
pub open spec fn demo_state(text: Seq<char>) -> (
    Map<Seq<char>, u32>,
    Map<u32, Seq<char>>,
    Map<(u32, u32), u32>,
) {
    let m = seed_chars(text);
    let s = seed_strings(text);
    let n = (m.dom().len() + 1) as u32;
    let he = m.contains_key("h"@) && m.contains_key("e"@);
    let v2 = if he {
        m.insert("he"@, n)
    } else {
        m
    };
    let s2 = if he {
        s.insert(n, "he"@)
    } else {
        s
    };
    let g2 = if he {
        Map::<(u32, u32), u32>::empty().insert((m["h"@], m["e"@]), n)
    } else {
        Map::empty()
    };
    let n2 = if he {
        (n + 1) as u32
    } else {
        n
    };
    if v2.contains_key("l"@) {
        (v2.insert("ll"@, n2), s2.insert(n2, "ll"@), g2.insert((v2["l"@], v2["l"@]), n2))
    } else {
        (v2, s2, g2)
    }
}

proof fn lemma_seed_keys(text: Seq<char>)
    ensures
        seed_chars(text).dom().finite(),
        forall|k: Seq<char>| #[trigger] seed_chars(text).contains_key(k) ==> k.len() == 1,
    decreases text.len(),
{
    if text.len() > 0 {
        lemma_seed_keys(text.drop_last());
    }
}

/// At most one id per Unicode scalar value is seeded.
proof fn lemma_seed_bound(text: Seq<char>)
    ensures
        seed_chars(text).dom().finite(),
        seed_chars(text).dom().len() <= 0x110000,
{
    lemma_seed_keys(text);
    let d = seed_chars(text).dom();
    let f = |k: Seq<char>| (k[0] as u32) as int;
    assert(vstd::relations::injective_on(f, d)) by {
        assert forall|a: Seq<char>, b: Seq<char>|
            d.contains(a) && d.contains(b) && #[trigger] f(a) == #[trigger] f(b) implies a == b by {
            vstd::utf8::char_u32_cast(a[0], a[0] as u32);
            vstd::utf8::char_u32_cast(b[0], b[0] as u32);
            assert(a =~= seq![a[0]]);
            assert(b =~= seq![b[0]]);
        }
    }
    vstd::set_lib::lemma_map_size(d, d.map(f), f);
    let range = vstd::set_lib::set_int_range(0, 0x110000);
    vstd::set_lib::lemma_int_range(0, 0x110000);
    assert(d.map(f).subset_of(range)) by {
        assert forall|x: int| d.map(f).contains(x) implies range.contains(x) by {
            let k = choose|k: Seq<char>| d.contains(k) && f(k) == x;
            assert(d.contains(k) && f(k) == x);
            let c: char = k[0];
            vstd::utf8::char_is_scalar(c);
            assert((c as u32) <= 0x10FFFF);
        }
    }
    vstd::set_lib::lemma_len_subset(d.map(f), range);
}

fn char_string(c: char) -> (s: String)
    ensures
        s@ == seq![c],
{
    let mut s = String::new();
    push_char(&mut s, c);
    assert(s@ =~= seq![c]);
    s
}

impl BpeTokenizer {
    /// The tokenizer that the `tokenize` command demonstrates on `text`:
    /// every distinct character of `text` is a token, numbered from 1 in
    /// order of first appearance; then `he` merges `h` and `e` when both
    /// occur, `ll` merges `l` with itself when `l` occurs, and `<think>`
    /// is the special token 100.
    pub fn for_demo(text: &str) -> (t: Self)
        ensures
            t.vocab@ == demo_state(text@).0.insert("<think>"@, 100),
            spells(t.id_to_token@, demo_state(text@).1.insert(100, "<think>"@)),
            t.merges@ == demo_state(text@).2,
            t.special_tokens@ == Map::<Seq<char>, u32>::empty().insert("<think>"@, 100),
    {
        let mut t = BpeTokenizer::new();
        let chars = chars_of(text);
        let mut next: u32 = 1;
        for i in 0..chars.len()
            invariant
                chars@ == text@,
                t.vocab@ == seed_chars(text@.take(i as int)),
                spells(t.id_to_token@, seed_strings(text@.take(i as int))),
                next == seed_chars(text@.take(i as int)).dom().len() + 1,
                t.merges@ == Map::<(u32, u32), u32>::empty(),
                t.special_tokens@ == Map::<Seq<char>, u32>::empty(),
        {
            let ghost pre = text@.take(i as int);
            assert(text@.take(i + 1).drop_last() =~= pre);
            assert(text@.take(i + 1).last() == chars@[i as int]);
            let s = char_string(chars[i]);
            if !t.vocab.contains_key(s.as_str()) {
                proof {
                    lemma_seed_bound(text@.take(i + 1));
                    lemma_seed_keys(pre);
                }
                t.vocab.insert(s.clone(), next);
                t.id_to_token.insert(next, s);
                next = next + 1;
                assert(t.id_to_token@.dom() =~= seed_strings(text@.take(i + 1)).dom());
            }
        }
        assert(text@.take(chars.len() as int) =~= text@);
        proof {
            lemma_seed_bound(text@);
            reveal_strlit("h");
            reveal_strlit("e");
            reveal_strlit("l");
            reveal_strlit("he");
            reveal_strlit("ll");
        }
        let ghost m = t.vocab@;
        let ghost s0 = t.id_to_token@;
        let h = match t.vocab.get("h") {
            Some(x) => Some(*x),
            None => None,
        };
        let e = match t.vocab.get("e") {
            Some(x) => Some(*x),
            None => None,
        };
        match (h, e) {
            (Some(h), Some(e)) => {
                t.vocab.insert("he".to_owned(), next);
                t.id_to_token.insert(next, "he".to_owned());
                t.merges.insert((h, e), next);
                next = next + 1;
                assert(t.id_to_token@.dom() =~= s0.dom().insert((m.dom().len() + 1) as u32));
            },
            _ => {},
        }
        let ghost s1 = t.id_to_token@;
        let l = match t.vocab.get("l") {
            Some(x) => Some(*x),
            None => None,
        };
        match l {
            Some(l) => {
                t.vocab.insert("ll".to_owned(), next);
                t.id_to_token.insert(next, "ll".to_owned());
                t.merges.insert((l, l), next);
                assert(t.id_to_token@.dom() =~= s1.dom().insert(next));
            },
            None => {},
        }
        t.add_special_token("<think>", 100);
        proof {
            reveal_strlit("<think>");
        }
        assert(t.id_to_token@.dom() =~= demo_state(text@).1.insert(100, "<think>"@).dom());
        t
    }
}

} // verus!
