//! Text as sequences of characters: splitting at separators, joining with
//! separators, and the order of texts.

use vstd::prelude::*;

verus! {

/// The characters of `s`, in order.
pub fn chars_of(s: &str) -> (v: Vec<char>)
    ensures
        v@ == s@,
{
    let mut v: Vec<char> = Vec::new();
    for c in it: s.chars()
        invariant
            it.seq() == s@,
            v@ == it.seq().take(it.index()),
    {
        v.push(c);
    }
    v
}

/// The position of the first of the characters `a` and `b` in `s`, or the
/// length of `s` where it holds neither.
pub open spec fn first_of(s: Seq<char>, a: char, b: char) -> int
    decreases s.len(),
{
    if s.len() == 0 || s[0] == a || s[0] == b {
        0
    } else {
        1 + first_of(s.drop_first(), a, b)
    }
}

/// The pieces of `s` between the separators `a` and `b`. Every separator
/// ends a piece, so two separators in a row hold an empty piece between them
/// and a text without separators is one piece.
pub open spec fn split(s: Seq<char>, a: char, b: char) -> Seq<Seq<char>>
    decreases s.len(),
{
    let k = first_of(s, a, b);
    if 0 <= k < s.len() {
        seq![s.take(k)] + split(s.skip(k + 1), a, b)
    } else {
        seq![s]
    }
}

/// `first_of` finds the separator at `k` when none comes before it.
pub proof fn lemma_first_of(s: Seq<char>, a: char, b: char, k: int)
    requires
        0 <= k <= s.len(),
        forall|i: int| 0 <= i < k ==> s[i] != a && s[i] != b,
        k < s.len() ==> s[k] == a || s[k] == b,
    ensures
        first_of(s, a, b) == k,
    decreases k,
{
    if k > 0 {
        let rest = s.drop_first();
        assert forall|i: int| 0 <= i < k - 1 implies rest[i] != a && rest[i] != b by {
            assert(rest[i] == s[i + 1]);
        }
        lemma_first_of(rest, a, b, k - 1);
    }
}

/// `first_of` points at a separator or at the end, and at nothing before
/// it.
pub proof fn lemma_first_of_is_first(s: Seq<char>, a: char, b: char)
    ensures
        0 <= first_of(s, a, b) <= s.len(),
        forall|i: int| 0 <= i < first_of(s, a, b) ==> s[i] != a && s[i] != b,
        first_of(s, a, b) < s.len() ==> s[first_of(s, a, b)] == a || s[first_of(s, a, b)] == b,
    decreases s.len(),
{
    if s.len() == 0 || s[0] == a || s[0] == b {
    } else {
        let rest = s.drop_first();
        lemma_first_of_is_first(rest, a, b);
        assert forall|i: int| 0 <= i < first_of(s, a, b) implies s[i] != a && s[i] != b by {
            if i > 0 {
                assert(s[i] == rest[i - 1]);
            }
        }
    }
}

/// The text of each piece of a collection, in order.
pub open spec fn texts(pieces: Seq<Vec<char>>) -> Seq<Seq<char>> {
    pieces.map_values(|piece: Vec<char>| piece@)
}

/// Splits `s` at every `a` and every `b`: see [`split`].
pub fn split_at_separators(s: &Vec<char>, a: char, b: char) -> (pieces: Vec<Vec<char>>)
    ensures
        texts(pieces@) == split(s@, a, b),
{
    let mut pieces: Vec<Vec<char>> = Vec::new();
    let mut piece: Vec<char> = Vec::new();
    let mut start: usize = 0;
    let mut i: usize = 0;
    assert(s@.skip(0) =~= s@);
    assert(texts(pieces@) + split(s@, a, b) =~= split(s@, a, b));
    while i < s.len()
        invariant
            start <= i <= s.len(),
            piece@ == s@.subrange(start as int, i as int),
            forall|j: int| start <= j < i ==> s[j] != a && s[j] != b,
            texts(pieces@) + split(s@.skip(start as int), a, b) == split(s@, a, b),
        decreases s.len() - i,
    {
        let c = s[i];
        if c == a || c == b {
            proof {
                let rest = s@.skip(start as int);
                assert forall|j: int| 0 <= j < i - start implies rest[j] != a && rest[j] != b by {
                    assert(rest[j] == s[start + j]);
                }
                lemma_first_of(rest, a, b, i - start);
                assert(rest.take(i - start) =~= piece@);
                assert(rest.skip(i - start + 1) =~= s@.skip(i + 1));
                assert(texts(pieces@).push(piece@) =~= texts(pieces@) + seq![piece@]);
            }
            let ghost before = texts(pieces@);
            pieces.push(piece);
            assert(texts(pieces@) =~= before.push(s@.subrange(start as int, i as int)));
            piece = Vec::new();
            start = i + 1;
        } else {
            piece.push(c);
        }
        i += 1;
        assert(piece@ =~= s@.subrange(start as int, i as int));
    }
    proof {
        let rest = s@.skip(start as int);
        assert forall|j: int| 0 <= j < rest.len() implies rest[j] != a && rest[j] != b by {
            assert(rest[j] == s[start + j]);
        }
        lemma_first_of(rest, a, b, rest.len() as int);
        assert(rest =~= piece@);
    }
    let ghost before = texts(pieces@);
    pieces.push(piece);
    assert(texts(pieces@) =~= before.push(s@.skip(start as int)));
    pieces
}


/// Whether `s` holds neither `a` nor `b`.
pub open spec fn holds_neither(s: Seq<char>, a: char, b: char) -> bool {
    forall|i: int| 0 <= i < s.len() ==> #[trigger] s[i] != a && s[i] != b
}

/// A text without separators is one piece.
pub proof fn lemma_split_one(s: Seq<char>, a: char, b: char)
    requires
        holds_neither(s, a, b),
    ensures
        split(s, a, b) == seq![s],
{
    lemma_first_of(s, a, b, s.len() as int);
}

/// A text without separators, a separator and more text: the first is the
/// first piece, and the pieces of the rest follow.
pub proof fn lemma_split_more(first: Seq<char>, sep: char, rest: Seq<char>, a: char, b: char)
    requires
        holds_neither(first, a, b),
        sep == a || sep == b,
    ensures
        split(first + seq![sep] + rest, a, b) == seq![first] + split(rest, a, b),
{
    let s = first + seq![sep] + rest;
    assert forall|i: int| 0 <= i < first.len() implies s[i] != a && s[i] != b by {
        assert(s[i] == first[i]);
    }
    lemma_first_of(s, a, b, first.len() as int);
    assert(s.take(first.len() as int) =~= first);
    assert(s.skip(first.len() as int + 1) =~= rest);
}


/// The pieces in a row with `sep` between each two of them.
pub open spec fn join(pieces: Seq<Seq<char>>, sep: Seq<char>) -> Seq<char>
    decreases pieces.len(),
{
    if pieces.len() == 0 {
        Seq::<char>::empty()
    } else if pieces.len() == 1 {
        pieces[0]
    } else {
        join(pieces.drop_last(), sep) + sep + pieces.last()
    }
}

/// Pieces that hold no separator are found again when the text that joins
/// them is split.
pub proof fn lemma_split_join(pieces: Seq<Seq<char>>, sep: char, a: char, b: char)
    requires
        pieces.len() > 0,
        sep == a || sep == b,
        forall|i: int| 0 <= i < pieces.len() ==> holds_neither(#[trigger] pieces[i], a, b),
    ensures
        split(join(pieces, seq![sep]), a, b) == pieces,
    decreases pieces.len(),
{
    if pieces.len() == 1 {
        lemma_split_one(pieces[0], a, b);
        assert(seq![pieces[0]] =~= pieces);
    } else {
        let front = pieces.drop_last();
        assert forall|i: int| 0 <= i < front.len() implies holds_neither(#[trigger] front[i], a, b) by {
            assert(front[i] == pieces[i]);
        }
        lemma_split_join(front, sep, a, b);
        lemma_split_append(join(front, seq![sep]), sep, pieces.last(), a, b);
        assert(front.push(pieces.last()) =~= pieces);
    }
}

/// A separator and a piece without separators behind a text add that piece
/// to the pieces of the text.
pub proof fn lemma_split_append(s: Seq<char>, sep: char, last: Seq<char>, a: char, b: char)
    requires
        sep == a || sep == b,
        holds_neither(last, a, b),
    ensures
        split(s + seq![sep] + last, a, b) == split(s, a, b).push(last),
    decreases s.len(),
{
    let whole = s + seq![sep] + last;
    lemma_first_of_is_first(s, a, b);
    let k = first_of(s, a, b);
    if k < s.len() {
        assert forall|i: int| 0 <= i < k implies whole[i] != a && whole[i] != b by {
            assert(whole[i] == s[i]);
        }
        assert(whole[k] == s[k]);
        lemma_first_of(whole, a, b, k);
        assert(whole.take(k) =~= s.take(k));
        assert(whole.skip(k + 1) =~= s.skip(k + 1) + seq![sep] + last);
        lemma_split_append(s.skip(k + 1), sep, last, a, b);
        assert(seq![s.take(k)] + split(s.skip(k + 1), a, b).push(last) =~= (seq![s.take(k)] + split(
            s.skip(k + 1),
            a,
            b,
        )).push(last));
    } else {
        assert(holds_neither(s, a, b));
        lemma_split_more(s, sep, last, a, b);
        lemma_split_one(last, a, b);
        assert(seq![s] + seq![last] =~= seq![s].push(last));
    }
}


/// Whether the text `a` comes before the text `b`: where they first differ,
/// `a` holds the smaller character or has ended.
pub open spec fn text_lt(a: Seq<char>, b: Seq<char>) -> bool
    decreases a.len(),
{
    if b.len() == 0 {
        false
    } else if a.len() == 0 {
        true
    } else if a[0] != b[0] {
        a[0] < b[0]
    } else {
        text_lt(a.drop_first(), b.drop_first())
    }
}

/// How one text stands to another in the order of texts.
#[derive(Clone, Copy, Debug, PartialEq, Eq, Structural)]
pub enum TextOrder {
    Before,
    Same,
    After,
}

/// No text comes before itself.
pub proof fn lemma_text_lt_irreflexive(a: Seq<char>)
    ensures
        !text_lt(a, a),
    decreases a.len(),
{
    if a.len() > 0 {
        lemma_text_lt_irreflexive(a.drop_first());
    }
}

/// What comes before a text comes before all that the text comes before.
pub proof fn lemma_text_lt_transitive(a: Seq<char>, b: Seq<char>, c: Seq<char>)
    requires
        text_lt(a, b),
        text_lt(b, c),
    ensures
        text_lt(a, c),
    decreases a.len(),
{
    if a.len() > 0 && a[0] == b[0] && b[0] == c[0] {
        lemma_text_lt_transitive(a.drop_first(), b.drop_first(), c.drop_first());
    }
}

/// Texts that begin alike stand to each other as what follows the common
/// beginning.
pub proof fn lemma_text_lt_skips_common(a: Seq<char>, b: Seq<char>, n: int)
    requires
        0 <= n <= a.len(),
        n <= b.len(),
        a.take(n) == b.take(n),
    ensures
        text_lt(a, b) == text_lt(a.skip(n), b.skip(n)),
        text_lt(b, a) == text_lt(b.skip(n), a.skip(n)),
    decreases n,
{
    if n == 0 {
        assert(a.skip(0) =~= a);
        assert(b.skip(0) =~= b);
    } else {
        assert(a[0] == a.take(n)[0]);
        assert(b[0] == b.take(n)[0]);
        let a1 = a.drop_first();
        let b1 = b.drop_first();
        assert(a1.take(n - 1) =~= a.take(n).drop_first());
        assert(b1.take(n - 1) =~= b.take(n).drop_first());
        lemma_text_lt_skips_common(a1, b1, n - 1);
        assert(a1.skip(n - 1) =~= a.skip(n));
        assert(b1.skip(n - 1) =~= b.skip(n));
    }
}

/// How `a` stands to `b` in the order of texts.
pub fn compare_text(a: &Vec<char>, b: &Vec<char>) -> (r: TextOrder)
    ensures
        r == TextOrder::Before <==> text_lt(a@, b@),
        r == TextOrder::Same <==> a@ == b@,
        r == TextOrder::After <==> text_lt(b@, a@),
{
    let mut i: usize = 0;
    while i < a.len() && i < b.len() && a[i] == b[i]
        invariant
            i <= a.len(),
            i <= b.len(),
            a@.take(i as int) == b@.take(i as int),
        decreases a.len() - i,
    {
        assert(a@.take(i + 1) =~= a@.take(i as int).push(a[i as int]));
        assert(b@.take(i + 1) =~= b@.take(i as int).push(b[i as int]));
        i += 1;
    }
    proof {
        lemma_text_lt_skips_common(a@, b@, i as int);
        lemma_text_lt_irreflexive(a@);
        let ra = a@.skip(i as int);
        let rb = b@.skip(i as int);
        if i < a.len() {
            assert(ra[0] == a[i as int]);
        }
        if i < b.len() {
            assert(rb[0] == b[i as int]);
        }
        if i == a.len() && i == b.len() {
            assert(a@ =~= a@.take(i as int));
            assert(b@ =~= b@.take(i as int));
        }
    }
    if i == a.len() {
        if i == b.len() {
            TextOrder::Same
        } else {
            TextOrder::Before
        }
    } else if i == b.len() {
        TextOrder::After
    } else if a[i] < b[i] {
        TextOrder::Before
    } else {
        TextOrder::After
    }
}

} // verus!
