//! Comparing texts and cutting them at colons.
use vstd::prelude::*;
use vstd::string::*;

verus! {

/// Lexicographic order of two texts by the code points of their characters:
/// a proper prefix comes first, and otherwise the first position where the
/// texts differ decides.
pub open spec fn lex_le(a: Seq<char>, b: Seq<char>) -> bool
    decreases a.len(),
{
    if a.len() == 0 {
        true
    } else if b.len() == 0 {
        false
    } else if a[0] != b[0] {
        (a[0] as u32) < (b[0] as u32)
    } else {
        lex_le(a.skip(1), b.skip(1))
    }
}

/// `str`'s `==` compares the two texts character by character.
pub assume_specification[ <str as PartialEq>::eq ](a: &str, b: &str) -> (same: bool)
    ensures
        same == (a@ == b@),
;

/// `str`'s `<=` orders strings lexicographically by their bytes, which for
/// UTF-8 is the order of their code points.
#[verifier::external_body]
pub(crate) fn text_le(a: &str, b: &str) -> (le: bool)
    ensures
        le == lex_le(a@, b@),
{
    a <= b
}

/// Every text comes before or beside itself.
pub proof fn lemma_lex_le_refl(a: Seq<char>)
    ensures
        lex_le(a, a),
    decreases a.len(),
{
    if a.len() > 0 {
        lemma_lex_le_refl(a.skip(1));
    }
}

/// Of two texts, one comes before or beside the other.
pub proof fn lemma_lex_le_total(a: Seq<char>, b: Seq<char>)
    ensures
        lex_le(a, b) || lex_le(b, a),
    decreases a.len(),
{
    if a.len() > 0 && b.len() > 0 {
        if a[0] == b[0] {
            lemma_lex_le_total(a.skip(1), b.skip(1));
        } else {
            vstd::utf8::char_u32_cast(a[0], a[0] as u32);
            vstd::utf8::char_u32_cast(b[0], b[0] as u32);
        }
    }
}

/// The order is transitive.
pub proof fn lemma_lex_le_trans(a: Seq<char>, b: Seq<char>, c: Seq<char>)
    requires
        lex_le(a, b),
        lex_le(b, c),
    ensures
        lex_le(a, c),
    decreases a.len(),
{
    if a.len() > 0 && b.len() > 0 && c.len() > 0 {
        if a[0] == b[0] && b[0] == c[0] {
            lemma_lex_le_trans(a.skip(1), b.skip(1), c.skip(1));
        }
    }
}

/// Two texts that each come before or beside the other are the same text.
pub proof fn lemma_lex_le_antisym(a: Seq<char>, b: Seq<char>)
    requires
        lex_le(a, b),
        lex_le(b, a),
    ensures
        a == b,
    decreases a.len(),
{
    if a.len() > 0 && b.len() > 0 {
        lemma_lex_le_antisym(a.skip(1), b.skip(1));
        assert(a =~= seq![a[0]] + a.skip(1));
        assert(b =~= seq![b[0]] + b.skip(1));
    } else {
        assert(a =~= b);
    }
}

/// The positions of the colons of a text, in rising order.
pub open spec fn colons(text: Seq<char>) -> Seq<int>
    decreases text.len(),
{
    if text.len() == 0 {
        Seq::empty()
    } else {
        let before = colons(text.drop_last());
        if text.last() == ':' {
            before.push(text.len() - 1)
        } else {
            before
        }
    }
}

/// The part of a text between two neighbouring colons: part 0 runs from the
/// start to the first colon, the last part from the last colon to the end.
pub open spec fn part(text: Seq<char>, k: int) -> Seq<char> {
    let marks = colons(text);
    let from = if k == 0 {
        0
    } else {
        marks[k - 1] + 1
    };
    let to = if k < marks.len() {
        marks[k]
    } else {
        text.len() as int
    };
    text.subrange(from, to)
}

/// The colons lie within the text, each behind the one before it.
pub proof fn lemma_colons(text: Seq<char>)
    ensures
        colons(text).len() <= text.len(),
        forall|k: int|
            0 <= k < colons(text).len() ==> 0 <= (#[trigger] colons(text)[k]) < text.len()
                && text[colons(text)[k]] == ':',
        forall|j: int, k: int|
            0 <= j < k < colons(text).len() ==> colons(text)[j] < colons(text)[k],
    decreases text.len(),
{
    if text.len() > 0 {
        let front = text.drop_last();
        lemma_colons(front);
        assert forall|k: int| 0 <= k < colons(text).len() implies 0 <= (#[trigger] colons(
            text,
        )[k]) < text.len() && text[colons(text)[k]] == ':' by {
            if k < colons(front).len() {
                assert(colons(text)[k] == colons(front)[k]);
                assert(front[colons(front)[k]] == text[colons(front)[k]]);
            }
        }
        assert forall|j: int, k: int| 0 <= j < k < colons(text).len() implies colons(text)[j]
            < colons(text)[k] by {
            assert(colons(text)[j] == colons(front)[j]);
            if k < colons(front).len() {
                assert(colons(text)[k] == colons(front)[k]);
            }
        }
    }
}

/// Finds the colons of a text and counts its characters.
pub fn scan(text: &str) -> (found: (Vec<usize>, usize))
    ensures
        found.1 == text@.len(),
        found.0@.len() == colons(text@).len(),
        forall|k: int| 0 <= k < found.0@.len() ==> (#[trigger] found.0@[k]) as int == colons(text@)[k],
{
    let n = text.unicode_len();
    let mut marks: Vec<usize> = Vec::new();
    let mut chars = text.chars();
    let mut i: usize = 0;
    proof {
        assert(text@.take(0) == Seq::<char>::empty());
        assert(text@.skip(0) == text@);
    }
    loop
        invariant
            n == text@.len(),
            i <= n,
            vstd::std_specs::iter::IteratorSpec::remaining(&chars) == text@.skip(i as int),
            marks@.len() == colons(text@.take(i as int)).len(),
            forall|k: int|
                0 <= k < marks@.len() ==> (#[trigger] marks@[k]) as int == colons(
                    text@.take(i as int),
                )[k],
        ensures
            i == n,
        decreases n - i,
    {
        let c = match chars.next() {
            Some(c) => c,
            None => {
                break ;
            },
        };
        proof {
            assert(text@.skip(i as int)[0] == text@[i as int]);
            assert(text@.skip(i as int).drop_first() == text@.skip(i + 1));
            assert(text@.take(i + 1).drop_last() == text@.take(i as int));
            assert(text@.take(i + 1).last() == c);
        }
        if c == ':' {
            marks.push(i);
        }
        i += 1;
    }
    proof {
        assert(text@.take(i as int) == text@);
    }
    (marks, n)
}

} // verus!
