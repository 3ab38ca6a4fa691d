//! Verified helpers for building, comparing and trimming text.
use vstd::prelude::*;
use vstd::string::*;

verus! {

/// Lexicographic order on character sequences, by code point. This is the order in which Rust
/// sorts `String` keys (UTF-8 byte order agrees with code point order).
pub open spec fn text_lt(a: Seq<char>, b: Seq<char>) -> bool
    decreases a.len(),
{
    if a.len() == 0 {
        b.len() > 0
    } else if b.len() == 0 {
        false
    } else if a[0] != b[0] {
        (a[0] as u32) < (b[0] as u32)
    } else {
        text_lt(a.drop_first(), b.drop_first())
    }
}

/// `text_lt` is a strict total order: irreflexive and total.
pub proof fn lemma_text_lt_total(a: Seq<char>, b: Seq<char>)
    ensures
        !text_lt(a, a),
        a != b ==> (text_lt(a, b) || text_lt(b, a)),
        !(text_lt(a, b) && text_lt(b, a)),
    decreases a.len(),
{
    if a.len() > 0 {
        lemma_text_lt_total(a.drop_first(), a.drop_first());
    }
    if a.len() > 0 && b.len() > 0 {
        lemma_text_lt_total(a.drop_first(), b.drop_first());
        if a[0] == b[0] && a != b {
            assert(a.drop_first() != b.drop_first()) by {
                if a.drop_first() == b.drop_first() {
                    assert(a =~= seq![a[0]] + a.drop_first());
                    assert(b =~= seq![b[0]] + b.drop_first());
                }
            }
        }
        if a[0] != b[0] {
            vstd::utf8::char_u32_cast(a[0], a[0] as u32);
            vstd::utf8::char_u32_cast(b[0], b[0] as u32);
            assert((a[0] as u32) != (b[0] as u32));
        }
    } else if a.len() == 0 && b.len() == 0 {
        assert(a =~= b);
    }
}

/// `text_lt` is transitive.
pub proof fn lemma_text_lt_transitive(a: Seq<char>, b: Seq<char>, c: Seq<char>)
    requires
        text_lt(a, b),
        text_lt(b, c),
    ensures
        text_lt(a, c),
    decreases a.len(),
{
    if a.len() > 0 && b.len() > 0 && c.len() > 0 {
        if a[0] == b[0] && b[0] == c[0] {
            lemma_text_lt_transitive(a.drop_first(), b.drop_first(), c.drop_first());
        }
    }
}

/// Result of comparing two texts.
#[derive(Clone, Copy, Debug, PartialEq, Eq, Structural)]
pub enum TextOrder {
    Less,
    Equal,
    Greater,
}

/// The characters of `s`, in order.
pub fn chars_of(s: &str) -> (r: Vec<char>)
    ensures
        r@ == s@,
{
    let mut r: Vec<char> = Vec::new();
    for c in it: s.chars()
        invariant
            r@ == it.seq().take(it.index() as int),
            it.seq() == s@,
    {
        r.push(c);
    }
    r
}

/// Compares two character sequences in the order of `text_lt`.
pub fn compare_chars(a: &Vec<char>, b: &Vec<char>) -> (r: TextOrder)
    ensures
        r == TextOrder::Less <==> text_lt(a@, b@),
        r == TextOrder::Equal <==> a@ == b@,
        r == TextOrder::Greater <==> text_lt(b@, a@),
{
    proof {
        lemma_text_lt_total(a@, b@);
    }
    let mut i: usize = 0;
    while i < a.len() && i < b.len()
        invariant
            i <= a.len(),
            i <= b.len(),
            a@.take(i as int) == b@.take(i as int),
        decreases a.len() - i,
    {
        if a[i] != b[i] {
            let lt = (a[i] as u32) < (b[i] as u32);
            proof {
                lemma_text_lt_skip(a@, b@, i as nat);
                vstd::utf8::char_u32_cast(a[i as int], a[i as int] as u32);
                vstd::utf8::char_u32_cast(b[i as int], b[i as int] as u32);
                assert((a[i as int] as u32) != (b[i as int] as u32));
            }
            if lt {
                return TextOrder::Less;
            } else {
                return TextOrder::Greater;
            }
        }
        proof {
            assert(a@.take(i + 1) =~= a@.take(i as int).push(a@[i as int]));
            assert(b@.take(i + 1) =~= b@.take(i as int).push(b@[i as int]));
        }
        i = i + 1;
    }
    proof {
        lemma_text_lt_skip(a@, b@, i as nat);
        if a.len() == b.len() {
            assert(a@ =~= a@.take(i as int));
            assert(b@ =~= b@.take(i as int));
        }
    }
    if a.len() == b.len() {
        TextOrder::Equal
    } else if a.len() < b.len() {
        TextOrder::Less
    } else {
        TextOrder::Greater
    }
}

/// Dropping a common prefix does not change the order.
pub proof fn lemma_text_lt_skip(a: Seq<char>, b: Seq<char>, n: nat)
    requires
        n <= a.len(),
        n <= b.len(),
        a.take(n as int) == b.take(n as int),
    ensures
        text_lt(a, b) == text_lt(a.skip(n as int), b.skip(n as int)),
        text_lt(b, a) == text_lt(b.skip(n as int), a.skip(n as int)),
    decreases n,
{
    if n > 0 {
        assert(a[0] == a.take(n as int)[0]);
        assert(b[0] == b.take(n as int)[0]);
        assert(a.drop_first().take(n - 1) =~= a.take(n as int).drop_first());
        assert(b.drop_first().take(n - 1) =~= b.take(n as int).drop_first());
        lemma_text_lt_skip(a.drop_first(), b.drop_first(), (n - 1) as nat);
        assert(a.drop_first().skip(n - 1) =~= a.skip(n as int));
        assert(b.drop_first().skip(n - 1) =~= b.skip(n as int));
    } else {
        assert(a.skip(0) =~= a);
        assert(b.skip(0) =~= b);
    }
}

/// Compares two strings in the order of `text_lt`.
pub fn compare_text(a: &str, b: &str) -> (r: TextOrder)
    ensures
        r == TextOrder::Less <==> text_lt(a@, b@),
        r == TextOrder::Equal <==> a@ == b@,
        r == TextOrder::Greater <==> text_lt(b@, a@),
{
    let ac = chars_of(a);
    let bc = chars_of(b);
    compare_chars(&ac, &bc)
}

/// Whether two strings hold the same characters.
pub fn text_eq(a: &str, b: &str) -> (r: bool)
    ensures
        r == (a@ == b@),
{
    compare_text(a, b) == TextOrder::Equal
}

/// A string holding exactly `s`.
pub fn owned(s: &str) -> (r: String)
    ensures
        r@ == s@,
{
    String::from_str(s)
}

/// Appends `t` to `s`.
pub fn push_text(s: &mut String, t: &str)
    ensures
        final(s)@ == old(s)@ + t@,
{
    s.append(t);
}

/// Appends the character `c` to `s` with std's `String::push`. The contract claims what its
/// documentation says: the characters of `s` gain `c` at the end.
#[verifier::external_body]
pub(crate) fn push_char(s: &mut String, c: char)
    ensures
        final(s)@ == old(s)@.push(c),
{
    s.push(c);
}

/// A string holding the characters of `cs`.
pub fn string_of_chars(cs: &[char]) -> (r: String)
    ensures
        r@ == cs@,
{
    let mut r = String::new();
    let mut i: usize = 0;
    while i < cs.len()
        invariant
            i <= cs@.len(),
            r@ == cs@.take(i as int),
        decreases cs@.len() - i,
    {
        push_char(&mut r, cs[i]);
        proof {
            assert(cs@.take(i + 1) =~= cs@.take(i as int).push(cs@[i as int]));
        }
        i = i + 1;
    }
    proof {
        assert(cs@.take(i as int) =~= cs@);
    }
    r
}

/// A string holding the characters `cs[from..to]`.
pub fn string_of_range(cs: &Vec<char>, from: usize, to: usize) -> (r: String)
    requires
        from <= to <= cs@.len(),
    ensures
        r@ == cs@.subrange(from as int, to as int),
{
    let mut r = String::new();
    let mut i: usize = from;
    while i < to
        invariant
            from <= i <= to <= cs@.len(),
            r@ == cs@.subrange(from as int, i as int),
        decreases to - i,
    {
        push_char(&mut r, cs[i]);
        proof {
            assert(cs@.subrange(from as int, i + 1) =~= cs@.subrange(from as int, i as int).push(
                cs@[i as int],
            ));
        }
        i = i + 1;
    }
    r
}

/// Unicode `White_Space` characters, as recognised by `char::is_whitespace` and used by
/// `str::trim`.
pub open spec fn is_white(c: char) -> bool {
    let n = c as u32;
    ||| 0x09 <= n <= 0x0D
    ||| n == 0x20
    ||| n == 0x85
    ||| n == 0xA0
    ||| n == 0x1680
    ||| 0x2000 <= n <= 0x200A
    ||| n == 0x2028
    ||| n == 0x2029
    ||| n == 0x202F
    ||| n == 0x205F
    ||| n == 0x3000
}

/// Whether `c` is white space, as `is_white` defines it.
pub fn is_white_char(c: char) -> (r: bool)
    ensures
        r == is_white(c),
{
    let n = c as u32;
    (0x09 <= n && n <= 0x0D) || n == 0x20 || n == 0x85 || n == 0xA0 || n == 0x1680 || (0x2000
        <= n && n <= 0x200A) || n == 0x2028 || n == 0x2029 || n == 0x202F || n == 0x205F || n
        == 0x3000
}

/// Number of leading white-space characters of `s`.
pub open spec fn lead_white(s: Seq<char>) -> nat
    decreases s.len(),
{
    if s.len() > 0 && is_white(s[0]) {
        1 + lead_white(s.drop_first())
    } else {
        0
    }
}

/// Number of trailing white-space characters of `s`.
pub open spec fn trail_white(s: Seq<char>) -> nat
    decreases s.len(),
{
    if s.len() > 0 && is_white(s.last()) {
        1 + trail_white(s.drop_last())
    } else {
        0
    }
}

/// `s` without leading and trailing white space (`str::trim`).
pub open spec fn trimmed(s: Seq<char>) -> Seq<char> {
    let l = lead_white(s);
    let rest = s.skip(l as int);
    rest.take(rest.len() - trail_white(rest))
}

proof fn lemma_lead_white(s: Seq<char>, i: int)
    requires
        0 <= i <= s.len(),
        forall|j: int| 0 <= j < i ==> is_white(#[trigger] s[j]),
    ensures
        lead_white(s) >= i,
        i < s.len() && !is_white(s[i]) ==> lead_white(s) == i,
        i == s.len() ==> lead_white(s) == i,
    decreases i,
{
    if i > 0 {
        lemma_lead_white(s.drop_first(), i - 1);
    } else if s.len() > 0 && !is_white(s[0]) {
    }
}

proof fn lemma_trail_white(s: Seq<char>, i: int)
    requires
        0 <= i <= s.len(),
        forall|j: int| s.len() - i <= j < s.len() ==> is_white(#[trigger] s[j]),
    ensures
        trail_white(s) >= i,
        i < s.len() && !is_white(s[s.len() - 1 - i]) ==> trail_white(s) == i,
        i == s.len() ==> trail_white(s) == i,
    decreases i,
{
    if i > 0 {
        assert forall|j: int|
            s.drop_last().len() - (i - 1) <= j < s.drop_last().len() implies is_white(
            #[trigger] s.drop_last()[j],
        ) by {
            assert(s.drop_last()[j] == s[j]);
        }
        lemma_trail_white(s.drop_last(), i - 1);
    }
}

/// Bounds `(start, end)` of the trimmed part of `cs`.
pub fn trim_bounds(cs: &Vec<char>) -> (r: (usize, usize))
    ensures
        r.0 <= r.1 <= cs@.len(),
        cs@.subrange(r.0 as int, r.1 as int) == trimmed(cs@),
{
    let mut start: usize = 0;
    while start < cs.len() && is_white_char(cs[start])
        invariant
            start <= cs@.len(),
            forall|j: int| 0 <= j < start ==> is_white(#[trigger] cs@[j]),
        decreases cs@.len() - start,
    {
        start = start + 1;
    }
    proof {
        lemma_lead_white(cs@, start as int);
    }
    let ghost rest = cs@.skip(start as int);
    let mut end: usize = cs.len();
    while end > start && is_white_char(cs[end - 1])
        invariant
            start <= end <= cs@.len(),
            rest == cs@.skip(start as int),
            forall|j: int| end - start <= j < rest.len() ==> is_white(#[trigger] rest[j]),
        decreases end,
    {
        proof {
            assert(rest[end - 1 - start] == cs@[end - 1]);
        }
        end = end - 1;
    }
    proof {
        if end > start {
            assert(rest[rest.len() - 1 - (cs@.len() - end)] == cs@[end - 1]);
        }
        lemma_trail_white(rest, (cs@.len() - end) as int);
        assert(cs@.subrange(start as int, end as int) =~= rest.take(end - start));
    }
    (start, end)
}

/// `s` with leading and trailing white space removed (`str::trim`).
pub fn trim_text(s: &str) -> (r: String)
    ensures
        r@ == trimmed(s@),
{
    let cs = chars_of(s);
    let (a, b) = trim_bounds(&cs);
    string_of_range(&cs, a, b)
}

/// Position of the first occurrence of `c` in `cs`.
pub fn find_first(cs: &Vec<char>, c: char) -> (r: Option<usize>)
    ensures
        match r {
            Some(i) => i < cs@.len() && cs@[i as int] == c && forall|j: int| 0 <= j < i ==> cs@[j] != c,
            None => forall|j: int| 0 <= j < cs@.len() ==> cs@[j] != c,
        },
{
    let mut i: usize = 0;
    while i < cs.len()
        invariant
            i <= cs@.len(),
            forall|j: int| 0 <= j < i ==> cs@[j] != c,
        decreases cs@.len() - i,
    {
        if cs[i] == c {
            return Some(i);
        }
        i = i + 1;
    }
    None
}

/// Position of the last occurrence of `c` in `cs`.
pub fn find_last(cs: &Vec<char>, c: char) -> (r: Option<usize>)
    ensures
        match r {
            Some(i) => i < cs@.len() && cs@[i as int] == c && forall|j: int|
                i < j < cs@.len() ==> cs@[j] != c,
            None => forall|j: int| 0 <= j < cs@.len() ==> cs@[j] != c,
        },
{
    let mut i: usize = cs.len();
    while i > 0
        invariant
            i <= cs@.len(),
            forall|j: int| i <= j < cs@.len() ==> cs@[j] != c,
        decreases i,
    {
        if cs[i - 1] == c {
            return Some(i - 1);
        }
        i = i - 1;
    }
    None
}


/// Position of the first `c` in `s`, or `s.len()` when there is none.
pub open spec fn first_pos(s: Seq<char>, c: char) -> int
    decreases s.len(),
{
    if s.len() == 0 {
        0
    } else if s[0] == c {
        0
    } else {
        1 + first_pos(s.drop_first(), c)
    }
}

/// Position of the last `c` in `s`, or `-1` when there is none.
pub open spec fn last_pos(s: Seq<char>, c: char) -> int
    decreases s.len(),
{
    if s.len() == 0 {
        -1
    } else if s.last() == c {
        s.len() - 1
    } else {
        last_pos(s.drop_last(), c)
    }
}

/// `first_pos` is the index of the first occurrence.
pub proof fn lemma_first_pos(s: Seq<char>, c: char, i: int)
    requires
        0 <= i <= s.len(),
        forall|j: int| 0 <= j < i ==> s[j] != c,
        i < s.len() ==> s[i] == c,
    ensures
        first_pos(s, c) == i,
    decreases i,
{
    if i > 0 {
        lemma_first_pos(s.drop_first(), c, i - 1);
    }
}

/// `last_pos` is the index of the last occurrence.
pub proof fn lemma_last_pos(s: Seq<char>, c: char, i: int)
    requires
        -1 <= i < s.len(),
        forall|j: int| i < j < s.len() ==> s[j] != c,
        i >= 0 ==> s[i] == c,
    ensures
        last_pos(s, c) == i,
    decreases s.len(),
{
    if s.len() > 0 && i < s.len() - 1 {
        lemma_last_pos(s.drop_last(), c, i);
    }
}

/// The pieces of `s` between occurrences of `c` (`str::split`); there is always at least one.
pub open spec fn split_pieces(s: Seq<char>, c: char) -> Seq<Seq<char>>
    decreases s.len(),
{
    if s.len() == 0 {
        seq![Seq::empty()]
    } else {
        let r = split_pieces(s.drop_last(), c);
        if s.last() == c {
            r.push(Seq::empty())
        } else {
            r.update(r.len() - 1, r.last().push(s.last()))
        }
    }
}

proof fn lemma_split_pieces_nonempty(s: Seq<char>, c: char)
    ensures
        split_pieces(s, c).len() >= 1,
    decreases s.len(),
{
    if s.len() > 0 {
        lemma_split_pieces_nonempty(s.drop_last(), c);
    }
}

/// A text without `c` is one piece.
pub proof fn lemma_split_no_sep(s: Seq<char>, c: char)
    requires
        !s.contains(c),
    ensures
        split_pieces(s, c) == seq![s],
    decreases s.len(),
{
    if s.len() > 0 {
        assert(!s.drop_last().contains(c)) by {
            if s.drop_last().contains(c) {
                let j = choose|j: int| 0 <= j < s.drop_last().len() && s.drop_last()[j] == c;
                assert(s[j] == c);
            }
        }
        lemma_split_no_sep(s.drop_last(), c);
        assert(s[s.len() - 1] != c);
        assert(s.drop_last().push(s.last()) =~= s);
        assert(seq![s.drop_last()].update(0, s.drop_last().push(s.last())) =~= seq![s]);
    } else {
        assert(s =~= Seq::<char>::empty());
    }
}

/// Appending a text without `c` extends the last piece.
pub proof fn lemma_split_append(a: Seq<char>, b: Seq<char>, c: char)
    requires
        !b.contains(c),
    ensures
        split_pieces(a + b, c) == split_pieces(a, c).update(
            split_pieces(a, c).len() - 1,
            split_pieces(a, c).last() + b,
        ),
    decreases b.len(),
{
    lemma_split_pieces_nonempty(a, c);
    let r = split_pieces(a, c);
    if b.len() == 0 {
        assert(a + b =~= a);
        assert(r.last() + b =~= r.last());
        assert(r.update(r.len() - 1, r.last() + b) =~= r);
    } else {
        let b2 = b.drop_last();
        assert(!b2.contains(c)) by {
            if b2.contains(c) {
                let j = choose|j: int| 0 <= j < b2.len() && b2[j] == c;
                assert(b[j] == c);
            }
        }
        lemma_split_append(a, b2, c);
        assert((a + b).drop_last() =~= a + b2);
        assert((a + b).last() == b[b.len() - 1]);
        assert(b[b.len() - 1] != c);
        assert((r.last() + b2).push(b.last()) =~= r.last() + b);
        assert(r.update(r.len() - 1, r.last() + b2).update(r.len() - 1, (r.last() + b2).push(b.last()))
            =~= r.update(r.len() - 1, r.last() + b));
    }
}

/// The pieces of texts without `,` joined by `, `: the first text, then each following text
/// with the space in front of it.
pub proof fn lemma_split_join(gs: Seq<Seq<char>>)
    requires
        gs.len() > 0,
        forall|i: int| 0 <= i < gs.len() ==> !(#[trigger] gs[i]).contains(','),
    ensures
        split_pieces(join_with(gs, seq![',', ' ']), ',') == Seq::new(
            gs.len(),
            |i: int|
                if i == 0 {
                    gs[0]
                } else {
                    seq![' '] + gs[i]
                },
        ),
    decreases gs.len(),
{
    let expected = Seq::new(gs.len(), |i: int| if i == 0 { gs[0] } else { seq![' '] + gs[i] });
    if gs.len() == 1 {
        lemma_split_no_sep(gs[0], ',');
        assert(split_pieces(join_with(gs, seq![',', ' ']), ',') =~= expected);
    } else {
        let front = gs.drop_last();
        assert forall|i: int| 0 <= i < front.len() implies !(#[trigger] front[i]).contains(',') by {
            assert(front[i] == gs[i]);
        }
        lemma_split_join(front);
        let j = join_with(front, seq![',', ' ']);
        let tail = seq![' '] + gs.last();
        assert(!tail.contains(',')) by {
            assert(!gs[gs.len() - 1].contains(','));
            if tail.contains(',') {
                let k = choose|k: int| 0 <= k < tail.len() && tail[k] == ',';
                assert(gs.last()[k - 1] == ',');
            }
        }
        assert(join_with(gs, seq![',', ' ']) =~= j.push(',') + tail);
        lemma_split_append(j.push(','), tail, ',');
        assert(j.push(',').drop_last() =~= j);
        lemma_split_pieces_nonempty(j, ',');
        let r = split_pieces(j.push(','), ',');
        assert(r == split_pieces(j, ',').push(Seq::<char>::empty()));
        assert(r.last() + tail =~= tail);
        assert(r.update(r.len() - 1, r.last() + tail) =~= expected);
    }
}

proof fn lemma_white_bounds(s: Seq<char>)
    ensures
        lead_white(s) <= s.len(),
        trail_white(s) <= s.len(),
    decreases s.len(),
{
    if s.len() > 0 {
        lemma_white_bounds(s.drop_first());
        lemma_white_bounds(s.drop_last());
    }
}

/// A text without surrounding white space stays so behind one space, once trimmed.
pub proof fn lemma_trim_space(g: Seq<char>)
    requires
        trimmed(g) == g,
    ensures
        trimmed(seq![' '] + g) == g,
{
    let l = lead_white(g);
    lemma_white_bounds(g);
    let rest = g.skip(l as int);
    lemma_white_bounds(rest);
    assert(trimmed(g).len() == rest.len() - trail_white(rest));
    assert(l == 0);
    assert(rest =~= g);
    assert(trail_white(g) == 0);
    let s = seq![' '] + g;
    assert(is_white(' '));
    assert(s.drop_first() =~= g);
    assert(lead_white(s) == 1);
    assert(s.skip(1) =~= g);
    assert(g.take(g.len() as int) =~= g);
}

/// Whether `t` occurs in `s` as a run of consecutive characters.
pub open spec fn has_infix(s: Seq<char>, t: Seq<char>) -> bool {
    exists|i: int| 0 <= i && i + t.len() <= s.len() && #[trigger] s.subrange(i, i + t.len()) == t
}

/// What occurs in a text occurs in the text with more around it.
pub proof fn lemma_infix_around(a: Seq<char>, s: Seq<char>, b: Seq<char>, t: Seq<char>)
    requires
        has_infix(s, t),
    ensures
        has_infix(a + s + b, t),
{
    let i = choose|i: int| 0 <= i && i + t.len() <= s.len() && #[trigger] s.subrange(i, i + t.len()) == t;
    let w = a + s + b;
    assert(w.subrange(a.len() + i, a.len() + i + t.len()) =~= s.subrange(i, i + t.len()));
}

/// A character occurs in a concatenation exactly when it occurs in one of the parts.
pub proof fn lemma_contains_concat(a: Seq<char>, b: Seq<char>, c: char)
    ensures
        (a + b).contains(c) == (a.contains(c) || b.contains(c)),
{
    if (a + b).contains(c) {
        let i = choose|i: int| 0 <= i < (a + b).len() && (a + b)[i] == c;
        if i < a.len() {
            assert(a[i] == c);
        } else {
            assert(b[i - a.len()] == c);
        }
    }
    if a.contains(c) {
        let i = choose|i: int| 0 <= i < a.len() && a[i] == c;
        assert((a + b)[i] == c);
    }
    if b.contains(c) {
        let i = choose|i: int| 0 <= i < b.len() && b[i] == c;
        assert((a + b)[a.len() + i] == c);
    }
}

/// The pieces of `cs[from..to]` between occurrences of `c`, each trimmed.
pub fn split_trimmed(cs: &Vec<char>, from: usize, to: usize, c: char) -> (r: Vec<String>)
    requires
        from <= to <= cs@.len(),
    ensures
        r@.len() == split_pieces(cs@.subrange(from as int, to as int), c).len(),
        forall|i: int|
            0 <= i < r@.len() ==> (#[trigger] r@[i])@ == trimmed(
                split_pieces(cs@.subrange(from as int, to as int), c)[i],
            ),
{
    let ghost whole = cs@.subrange(from as int, to as int);
    let mut pieces: Vec<String> = Vec::new();
    let mut cur: Vec<char> = Vec::new();
    let mut i: usize = from;
    while i < to
        invariant
            from <= i <= to <= cs@.len(),
            whole == cs@.subrange(from as int, to as int),
            ({
                let sp = split_pieces(cs@.subrange(from as int, i as int), c);
                &&& pieces@.len() + 1 == sp.len()
                &&& forall|k: int| 0 <= k < pieces@.len() ==> (#[trigger] pieces@[k])@ == trimmed(sp[k])
                &&& cur@ == sp.last()
            }),
        decreases to - i,
    {
        proof {
            lemma_split_pieces_nonempty(cs@.subrange(from as int, i as int), c);
            assert(cs@.subrange(from as int, i + 1).drop_last() =~= cs@.subrange(from as int, i as int));
        }
        if cs[i] == c {
            let t = trim_text_chars(&cur);
            pieces.push(t);
            cur = Vec::new();
        } else {
            cur.push(cs[i]);
        }
        i = i + 1;
    }
    let t = trim_text_chars(&cur);
    pieces.push(t);
    pieces
}

/// The characters of `cs` without leading and trailing white space.
pub fn trim_text_chars(cs: &Vec<char>) -> (r: String)
    ensures
        r@ == trimmed(cs@),
{
    let (a, b) = trim_bounds(cs);
    string_of_range(cs, a, b)
}


/// `parts` joined with `sep` between consecutive parts.
pub open spec fn join_with(parts: Seq<Seq<char>>, sep: Seq<char>) -> Seq<char>
    decreases parts.len(),
{
    if parts.len() == 0 {
        Seq::empty()
    } else if parts.len() == 1 {
        parts[0]
    } else {
        join_with(parts.drop_last(), sep) + sep + parts.last()
    }
}

/// The views of a sequence of strings.
pub open spec fn string_views(s: Seq<String>) -> Seq<Seq<char>> {
    s.map_values(|x: String| x@)
}

/// Joins `parts` with `sep` (`[String]::join`).
pub fn join_strings(parts: &Vec<String>, sep: &str) -> (r: String)
    ensures
        r@ == join_with(string_views(parts@), sep@),
{
    let mut r = String::new();
    let mut i: usize = 0;
    let ghost all = string_views(parts@);
    while i < parts.len()
        invariant
            i <= parts@.len(),
            all == string_views(parts@),
            all.len() == parts@.len(),
            r@ == join_with(all.take(i as int), sep@),
        decreases parts@.len() - i,
    {
        if i > 0 {
            push_text(&mut r, sep);
        }
        push_text(&mut r, parts[i].as_str());
        proof {
            let t = all.take(i + 1);
            assert(t.drop_last() =~= all.take(i as int));
            assert(all[i as int] == parts@[i as int]@);
            if i == 0 {
                assert(r@ =~= t[0]);
            }
        }
        i = i + 1;
    }
    proof {
        assert(all.take(i as int) =~= all);
    }
    r
}

/// The character of the decimal digit `d`.
pub open spec fn digit_char(d: nat) -> char {
    if d == 0 {
        '0'
    } else if d == 1 {
        '1'
    } else if d == 2 {
        '2'
    } else if d == 3 {
        '3'
    } else if d == 4 {
        '4'
    } else if d == 5 {
        '5'
    } else if d == 6 {
        '6'
    } else if d == 7 {
        '7'
    } else if d == 8 {
        '8'
    } else {
        '9'
    }
}

/// The decimal text of `n`, without leading zeros.
pub open spec fn decimal(n: nat) -> Seq<char>
    decreases n,
{
    if n < 10 {
        seq![digit_char(n)]
    } else {
        decimal(n / 10).push(digit_char(n % 10))
    }
}

/// The character of the decimal digit `d`.
fn digit(d: usize) -> (r: char)
    requires
        d < 10,
    ensures
        r == digit_char(d as nat),
{
    if d == 0 {
        '0'
    } else if d == 1 {
        '1'
    } else if d == 2 {
        '2'
    } else if d == 3 {
        '3'
    } else if d == 4 {
        '4'
    } else if d == 5 {
        '5'
    } else if d == 6 {
        '6'
    } else if d == 7 {
        '7'
    } else if d == 8 {
        '8'
    } else {
        '9'
    }
}

/// The decimal text of `n` (`usize::to_string`).
pub fn decimal_text(n: usize) -> (r: String)
    ensures
        r@ == decimal(n as nat),
    decreases n,
{
    if n < 10 {
        let mut s = String::new();
        push_char(&mut s, digit(n));
        proof {
            assert(s@ =~= seq![digit_char(n as nat)]);
        }
        s
    } else {
        let mut s = decimal_text(n / 10);
        push_char(&mut s, digit(n % 10));
        s
    }
}

/// A line without its trailing carriage return, if it has one.
pub open spec fn strip_cr(l: Seq<char>) -> Seq<char> {
    if l.len() > 0 && l.last() == '\r' {
        l.drop_last()
    } else {
        l
    }
}

/// The lines of `s` (`str::lines`): the pieces between line feeds, without a final empty
/// piece, each without its trailing carriage return.
pub open spec fn lines_of(s: Seq<char>) -> Seq<Seq<char>> {
    let p = split_pieces(s, '\n');
    let q = if p.last().len() == 0 {
        p.drop_last()
    } else {
        p
    };
    q.map_values(|l: Seq<char>| strip_cr(l))
}

/// The characters of `cs` without a trailing carriage return.
fn strip_cr_chars(cs: &Vec<char>) -> (r: String)
    ensures
        r@ == strip_cr(cs@),
{
    let n = cs.len();
    if n > 0 && cs[n - 1] == '\r' {
        let r = string_of_range(cs, 0, n - 1);
        proof {
            assert(cs@.subrange(0, n - 1) =~= cs@.drop_last());
        }
        r
    } else {
        let r = string_of_range(cs, 0, n);
        proof {
            assert(cs@.subrange(0, n as int) =~= cs@);
        }
        r
    }
}

/// The lines of `s` (`str::lines`).
pub fn text_lines(s: &str) -> (r: Vec<String>)
    ensures
        r@.len() == lines_of(s@).len(),
        forall|i: int| 0 <= i < r@.len() ==> (#[trigger] r@[i])@ == lines_of(s@)[i],
{
    let cs = chars_of(s);
    let mut lines: Vec<String> = Vec::new();
    let mut cur: Vec<char> = Vec::new();
    let mut i: usize = 0;
    while i < cs.len()
        invariant
            i <= cs@.len(),
            cs@ == s@,
            ({
                let sp = split_pieces(cs@.take(i as int), '\n');
                &&& lines@.len() + 1 == sp.len()
                &&& forall|k: int| 0 <= k < lines@.len() ==> (#[trigger] lines@[k])@ == strip_cr(sp[k])
                &&& cur@ == sp.last()
            }),
        decreases cs@.len() - i,
    {
        proof {
            lemma_split_pieces_nonempty(cs@.take(i as int), '\n');
            assert(cs@.take(i + 1).drop_last() =~= cs@.take(i as int));
        }
        if cs[i] == '\n' {
            let l = strip_cr_chars(&cur);
            lines.push(l);
            cur = Vec::new();
        } else {
            cur.push(cs[i]);
        }
        i = i + 1;
    }
    proof {
        assert(cs@.take(i as int) =~= cs@);
        lemma_split_pieces_nonempty(cs@, '\n');
    }
    if cur.len() > 0 {
        let l = strip_cr_chars(&cur);
        lines.push(l);
    }
    lines
}

} // verus!
