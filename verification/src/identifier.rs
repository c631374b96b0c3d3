//! Transfer identifiers: word-list passphrases.
//!
//! An identifier is a fixed number of dictionary words joined by `-`. The
//! server chooses it; clients only ever present it back. Validation is
//! purely syntactic — the expected word count with no empty segments — and
//! implies nothing about existence.

use vstd::prelude::*;

use rand::seq::IndexedRandom;

verus! {

/// Number of words in a transfer identifier.
pub const TRANSFER_IDENTIFIER_WORDS: usize = 4;

/// The segments of `s` split at every `sep` (empty segments kept, as in
/// splitting a string on a separator: there is always one more segment
/// than there are separators).
pub open spec fn split_sep(s: Seq<char>, sep: char) -> Seq<Seq<char>>
    decreases s.len(),
{
    if s.len() == 0 {
        seq![Seq::<char>::empty()]
    } else if s[0] == sep {
        seq![Seq::<char>::empty()] + split_sep(s.drop_first(), sep)
    } else {
        let rest = split_sep(s.drop_first(), sep);
        seq![seq![s[0]] + rest[0]] + rest.drop_first()
    }
}

/// A syntactically valid identifier: exactly the expected number of words,
/// none of them empty.
pub open spec fn valid_identifier(s: Seq<char>) -> bool {
    let parts = split_sep(s, '-');
    parts.len() == TRANSFER_IDENTIFIER_WORDS && (forall|i: int|
        0 <= i < parts.len() ==> parts[i].len() > 0)
}

pub(crate) proof fn lemma_split_sep_len(s: Seq<char>, sep: char)
    ensures
        split_sep(s, sep).len() >= 1,
    decreases s.len(),
{
    if s.len() == 0 {
    } else if s[0] == sep {
        lemma_split_sep_len(s.drop_first(), sep);
    } else {
        lemma_split_sep_len(s.drop_first(), sep);
    }
}

/// How the split of `s` changes when one character is appended: a
/// separator starts a new empty segment; any other character extends the
/// last segment.
pub(crate) proof fn lemma_split_sep_push(s: Seq<char>, sep: char, c: char)
    ensures
        c == sep ==> split_sep(s.push(c), sep) == split_sep(s, sep).push(Seq::<char>::empty()),
        c != sep ==> split_sep(s.push(c), sep) == split_sep(s, sep).drop_last().push(
            split_sep(s, sep).last().push(c),
        ),
    decreases s.len(),
{
    lemma_split_sep_len(s, sep);
    if s.len() == 0 {
        assert(s.push(c).drop_first() =~= Seq::<char>::empty());
        assert(split_sep(s.push(c).drop_first(), sep) =~~= seq![Seq::<char>::empty()]);
        assert(s =~= Seq::<char>::empty());
        assert(split_sep(s, sep) =~~= seq![Seq::<char>::empty()]);
        assert(s.push(c)[0] == c);
        if c == sep {
            assert(split_sep(s.push(c), sep) =~~= split_sep(s, sep).push(Seq::<char>::empty()));
        } else {
            assert(split_sep(s.push(c), sep) =~~= split_sep(s, sep).drop_last().push(
                split_sep(s, sep).last().push(c),
            ));
        }
    } else {
        let d = s.drop_first();
        assert(s.push(c).drop_first() =~= d.push(c));
        lemma_split_sep_push(d, sep, c);
        lemma_split_sep_len(d, sep);
        if c == sep {
            if s[0] == sep {
                assert(split_sep(s.push(c), sep) =~~= split_sep(s, sep).push(
                    Seq::<char>::empty(),
                ));
            } else {
                assert(split_sep(d.push(c), sep)[0] == split_sep(d, sep)[0]);
                assert(split_sep(s.push(c), sep) =~~= split_sep(s, sep).push(
                    Seq::<char>::empty(),
                ));
            }
        } else {
            if s[0] == sep {
                assert(split_sep(s.push(c), sep) =~~= split_sep(s, sep).drop_last().push(
                    split_sep(s, sep).last().push(c),
                ));
            } else {
                let rest = split_sep(d, sep);
                if rest.len() == 1 {
                    assert(split_sep(d.push(c), sep)[0] == rest[0].push(c));
                    assert(split_sep(s.push(c), sep) =~~= split_sep(s, sep).drop_last().push(
                        split_sep(s, sep).last().push(c),
                    ));
                } else {
                    assert(split_sep(d.push(c), sep)[0] == rest[0]);
                    assert(split_sep(s, sep).last() == rest.last());
                    assert(split_sep(s.push(c), sep) =~~= split_sep(s, sep).drop_last().push(
                        split_sep(s, sep).last().push(c),
                    ));
                }
            }
        }
    }
}

/// Syntactic validation of an identifier string: exactly
/// `TRANSFER_IDENTIFIER_WORDS` words, all non-empty, joined by `-`.
pub(crate) fn validate_identifier_str(id: &str) -> (r: bool)
    ensures
        r == valid_identifier(id@),
{
    let n = id.unicode_len();
    let mut i: usize = 0;
    // Number of segments seen so far, capped just above the expected count.
    let mut parts: usize = 1;
    // Length of the segment currently being read.
    let mut cur_len: usize = 0;
    // Whether every completed segment was non-empty.
    let mut prev_ok = true;
    proof {
        assert(id@.take(0) =~= Seq::<char>::empty());
    }
    while i < n
        invariant
            n == id@.len(),
            i <= n,
            1 <= parts <= 5,
            cur_len <= i,
            split_sep(id@.take(i as int), '-').len() >= 1,
            parts as int == if split_sep(id@.take(i as int), '-').len() <= 5 {
                split_sep(id@.take(i as int), '-').len() as int
            } else {
                5int
            },
            cur_len == split_sep(id@.take(i as int), '-').last().len(),
            prev_ok == (forall|j: int|
                0 <= j < split_sep(id@.take(i as int), '-').len() - 1 ==> split_sep(
                    id@.take(i as int),
                    '-',
                )[j].len() > 0),
        decreases n - i,
    {
        let c = id.get_char(i);
        proof {
            lemma_split_sep_push(id@.take(i as int), '-', c);
            lemma_split_sep_len(id@.take(i as int), '-');
            assert(id@.take(i as int).push(c) =~= id@.take(i + 1 as int));
        }
        let ghost sp = split_sep(id@.take(i as int), '-');
        let ghost sp2 = split_sep(id@.take(i + 1 as int), '-');
        if c == '-' {
            proof {
                assert(sp2 == sp.push(Seq::<char>::empty()));
                assert(sp2.last().len() == 0);
                assert forall|j: int| 0 <= j < sp2.len() - 1 implies sp2[j] == sp[j] by {}
            }
            if cur_len == 0 {
                prev_ok = false;
            }
            if parts < 5 {
                parts = parts + 1;
            }
            cur_len = 0;
        } else {
            proof {
                assert(sp2 == sp.drop_last().push(sp.last().push(c)));
                assert(sp2.len() == sp.len());
                assert(sp2.last() == sp.last().push(c));
                assert forall|j: int| 0 <= j < sp2.len() - 1 implies sp2[j] == sp[j] by {}
            }
            cur_len = cur_len + 1;
        }
        i = i + 1;
    }
    proof {
        assert(id@.take(n as int) =~= id@);
    }
    prev_ok && parts == TRANSFER_IDENTIFIER_WORDS && cur_len > 0
}

/// Relies on rand's `IndexedRandom::choose_multiple` over eff-wordlist's
/// large `LIST`: it draws exactly `count` elements, without replacement,
/// when the list holds at least `count` entries (it holds 7776), and every
/// word in that list is non-empty.
#[verifier::external_body]
fn pick_identifier_words(count: usize) -> (r: Vec<String>)
    requires
        count <= 7776,
    ensures
        r@.len() == count,
        forall|i: int| 0 <= i < r@.len() ==> (#[trigger] r@[i])@.len() > 0,
{
    eff_wordlist::large::LIST
        .choose_multiple(&mut rand::rng(), count)
        .map(|entry| entry.1.to_string())
        .collect()
}

/// Join words with the `-` separator.
fn join_words(words: &Vec<String>) -> (r: String)
    requires
        words@.len() >= 1,
{
    let mut out = words[0].clone();
    let mut i: usize = 1;
    while i < words.len()
        invariant
            1 <= i <= words@.len(),
        decreases words.len() - i,
    {
        out.append("-");
        out.append(words[i].as_str());
        i = i + 1;
    }
    out
}

/// Draw a fresh candidate identifier: the configured number of dictionary
/// words joined by `-`. A few of the dictionary's words contain `-`
/// themselves, so a candidate can fail syntactic validation; callers
/// regenerate until it passes.
pub(crate) fn generate_candidate_identifier() -> String {
    let words = pick_identifier_words(TRANSFER_IDENTIFIER_WORDS);
    join_words(&words)
}

} // verus!
