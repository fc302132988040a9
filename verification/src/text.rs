use vstd::prelude::*;

verus! {

/// The pieces of `s` that lie between occurrences of `d`. A text with n
/// delimiters has n + 1 pieces, some of which may be empty.
pub open spec fn split(s: Seq<char>, d: char) -> Seq<Seq<char>>
    decreases s.len(),
{
    if s.len() == 0 {
        seq![Seq::<char>::empty()]
    } else {
        let head = split(s.drop_last(), d);
        if s.last() == d {
            head.push(Seq::<char>::empty())
        } else {
            head.drop_last().push(head.last().push(s.last()))
        }
    }
}

/// A line without the carriage return that may precede its line feed.
pub open spec fn strip_cr(line: Seq<char>) -> Seq<char> {
    if line.len() > 0 && line.last() == '\r' {
        line.drop_last()
    } else {
        line
    }
}

/// The lines of a text. Each line ends at a line feed, which is not part of
/// it, nor is a carriage return just before the line feed. What follows the
/// last line feed is a line of its own unless it is empty.
pub open spec fn lines(s: Seq<char>) -> Seq<Seq<char>> {
    let pieces = split(s, '\n');
    let ended = pieces.drop_last().map_values(|l: Seq<char>| strip_cr(l));
    if pieces.last().len() > 0 {
        ended.push(pieces.last())
    } else {
        ended
    }
}

/// The pieces that are not empty, in order.
pub open spec fn non_empty(pieces: Seq<Seq<char>>) -> Seq<Seq<char>>
    decreases pieces.len(),
{
    if pieces.len() == 0 {
        Seq::empty()
    } else {
        let head = non_empty(pieces.drop_last());
        if pieces.last().len() > 0 {
            head.push(pieces.last())
        } else {
            head
        }
    }
}

/// The text of each element.
pub open spec fn views(v: Seq<Vec<char>>) -> Seq<Seq<char>> {
    v.map_values(|x: Vec<char>| x@)
}

/// The text of each string.
pub open spec fn string_views(v: Seq<String>) -> Seq<Seq<char>> {
    v.map_values(|x: String| x@)
}

/// Splitting never yields an empty list of pieces.
pub proof fn lemma_split_len(s: Seq<char>, d: char)
    ensures
        split(s, d).len() >= 1,
    decreases s.len(),
{
    if s.len() > 0 {
        lemma_split_len(s.drop_last(), d);
    }
}

/// Text without the delimiter, put behind any text, lengthens its last piece.
pub proof fn lemma_split_append(a: Seq<char>, s: Seq<char>, d: char)
    requires
        forall|i: int| 0 <= i < s.len() ==> s[i] != d,
    ensures
        split(a, d).len() >= 1,
        split(a + s, d) == split(a, d).drop_last().push(split(a, d).last() + s),
    decreases s.len(),
{
    lemma_split_len(a, d);
    if s.len() == 0 {
        assert(a + s =~= a);
        assert(split(a, d).last() + s =~= split(a, d).last());
        assert(split(a, d) =~= split(a, d).drop_last().push(split(a, d).last()));
    } else {
        let t = s.drop_last();
        lemma_split_append(a, t, d);
        assert((a + s).drop_last() =~= a + t);
        assert((a + s).last() == s.last());
        let head = split(a + t, d);
        assert(head.drop_last() =~= split(a, d).drop_last());
        assert(head.last().push(s.last()) =~= split(a, d).last() + s);
    }
}

/// No piece of a split holds the delimiter.
pub proof fn lemma_split_pieces_free(s: Seq<char>, d: char)
    ensures
        forall|i: int, j: int|
            0 <= i < split(s, d).len() && 0 <= j < split(s, d)[i].len() ==> #[trigger] split(
                s,
                d,
            )[i][j] != d,
    decreases s.len(),
{
    if s.len() > 0 {
        lemma_split_pieces_free(s.drop_last(), d);
        lemma_split_len(s.drop_last(), d);
        let head = split(s.drop_last(), d);
        let now = split(s, d);
        assert forall|i: int, j: int| 0 <= i < now.len() && 0 <= j < now[i].len() implies
            #[trigger] now[i][j] != d by {
            if i < head.len() - 1 {
                assert(now[i] == head[i]);
                assert(head[i][j] != d);
            } else if s.last() == d {
                if i < head.len() {
                    assert(now[i] == head[i]);
                    assert(head[i][j] != d);
                }
            } else if j < head.last().len() {
                assert(now[i][j] == head[head.len() - 1][j]);
                assert(head[head.len() - 1][j] != d);
            }
        }
    }
}

/// Each piece that is kept as not empty is not empty, and is one of the
/// pieces.
pub proof fn lemma_non_empty_members(pieces: Seq<Seq<char>>)
    ensures
        forall|i: int|
            0 <= i < non_empty(pieces).len() ==> (#[trigger] non_empty(pieces)[i]).len() > 0
                && pieces.contains(non_empty(pieces)[i]),
    decreases pieces.len(),
{
    if pieces.len() > 0 {
        let before = pieces.drop_last();
        lemma_non_empty_members(before);
        let head = non_empty(before);
        let kept = non_empty(pieces);
        assert forall|i: int| 0 <= i < kept.len() implies (#[trigger] kept[i]).len() > 0
            && pieces.contains(kept[i]) by {
            if i < head.len() {
                assert(kept[i] == head[i]);
                assert(before.contains(head[i]));
                let k = choose|k: int| 0 <= k < before.len() && before[k] == head[i];
                assert(pieces[k] == kept[i]);
            } else {
                assert(pieces[pieces.len() - 1] == kept[i]);
            }
        }
    }
}

/// A line as a text can hold it between line feeds: without line feed, and
/// not ending in a carriage return.
pub open spec fn whole_line(line: Seq<char>) -> bool {
    &&& forall|i: int| 0 <= i < line.len() ==> line[i] != '\n'
    &&& line.len() > 0 ==> line.last() != '\r'
}

/// The text that holds the given lines, each ended by a line feed.
pub open spec fn joined(ls: Seq<Seq<char>>) -> Seq<char>
    decreases ls.len(),
{
    if ls.len() == 0 {
        Seq::empty()
    } else {
        joined(ls.drop_last()) + ls.last() + seq!['\n']
    }
}

/// The lines of a text made of lines are those lines.
pub proof fn lemma_lines_of_joined(ls: Seq<Seq<char>>)
    requires
        forall|i: int| 0 <= i < ls.len() ==> whole_line(#[trigger] ls[i]),
    ensures
        split(joined(ls), '\n') == ls.push(Seq::empty()),
        lines(joined(ls)) == ls,
    decreases ls.len(),
{
    let none = Seq::<char>::empty();
    if ls.len() == 0 {
        assert(split(joined(ls), '\n') =~= ls.push(none));
    } else {
        let head = ls.drop_last();
        let line = ls.last();
        assert forall|i: int| 0 <= i < head.len() implies whole_line(#[trigger] head[i]) by {
            assert(head[i] == ls[i]);
        }
        lemma_lines_of_joined(head);
        assert(whole_line(ls[ls.len() - 1]));
        lemma_split_append(joined(head), line, '\n');
        let body = joined(head) + line;
        assert(none + line =~= line);
        assert(split(body, '\n') =~= head.push(line));
        let whole = joined(ls);
        assert(whole.drop_last() =~= body);
        assert(whole.last() == '\n');
        assert(head.push(line) =~= ls);
        assert(split(whole, '\n') =~= ls.push(none));
    }
    let pieces = split(joined(ls), '\n');
    assert(pieces.drop_last() =~= ls);
    assert forall|i: int| 0 <= i < ls.len() implies strip_cr(#[trigger] ls[i]) == ls[i] by {
        assert(whole_line(ls[i]));
    }
    assert(pieces.drop_last().map_values(|l: Seq<char>| strip_cr(l)) =~= ls);
}

/// The characters of a string.
pub fn chars_of(s: &str) -> (v: Vec<char>)
    ensures
        v@ == s@,
{
    let mut v: Vec<char> = Vec::new();
    for c in it: s.chars()
        invariant
            it.seq() == s@,
            v@ == it.seq().take(it.index() as int),
    {
        v.push(c);
    }
    v
}

/// `String::push`: the string grows by the one character at its end.
#[verifier::external_body]
fn push_char(s: &mut String, c: char)
    ensures
        final(s)@ == old(s)@.push(c),
{
    s.push(c)
}

/// The string made of the given characters.
pub fn string_of(chars: &Vec<char>) -> (s: String)
    ensures
        s@ == chars@,
{
    let mut s = String::new();
    let mut i: usize = 0;
    while i < chars.len()
        invariant
            i <= chars.len(),
            s@ == chars@.take(i as int),
        decreases chars.len() - i,
    {
        push_char(&mut s, chars[i]);
        proof {
            assert(chars@.take(i + 1) =~= chars@.take(i as int).push(chars@[i as int]));
        }
        i += 1;
    }
    proof {
        assert(chars@.take(i as int) =~= chars@);
    }
    s
}

/// Splits `s` at every occurrence of `d`.
pub fn split_chars(s: &Vec<char>, d: char) -> (parts: Vec<Vec<char>>)
    ensures
        views(parts@) == split(s@, d),
{
    let mut parts: Vec<Vec<char>> = Vec::new();
    let mut cur: Vec<char> = Vec::new();
    let mut i: usize = 0;
    proof {
        assert(s@.take(0) =~= Seq::<char>::empty());
        assert(views(parts@).push(cur@) =~= split(s@.take(0), d));
    }
    while i < s.len()
        invariant
            i <= s.len(),
            views(parts@).push(cur@) == split(s@.take(i as int), d),
        decreases s.len() - i,
    {
        let c = s[i];
        let ghost head = split(s@.take(i as int), d);
        let ghost done = views(parts@);
        let ghost open = cur@;
        proof {
            assert(s@.take(i + 1).drop_last() =~= s@.take(i as int));
            assert(s@.take(i + 1).last() == c);
            assert(head.last() == open);
            assert(head.drop_last() =~= done);
        }
        if c == d {
            parts.push(cur);
            cur = Vec::new();
            proof {
                assert(views(parts@) =~= done.push(open));
                assert(views(parts@).push(cur@) =~= head.push(Seq::<char>::empty()));
            }
        } else {
            cur.push(c);
            proof {
                assert(views(parts@).push(cur@) =~= head.drop_last().push(head.last().push(c)));
            }
        }
        i += 1;
    }
    proof {
        assert(s@.take(i as int) =~= s@);
    }
    let ghost done = views(parts@);
    parts.push(cur);
    proof {
        assert(views(parts@) =~= done.push(cur@));
    }
    parts
}

/// Splits a text into its lines.
pub fn lines_of(s: &Vec<char>) -> (out: Vec<Vec<char>>)
    ensures
        views(out@) == lines(s@),
{
    let mut parts: Vec<Vec<char>> = Vec::new();
    let mut cur: Vec<char> = Vec::new();
    let mut i: usize = 0;
    proof {
        assert(s@.take(0) =~= Seq::<char>::empty());
        assert(split(s@.take(0), '\n') =~= seq![Seq::<char>::empty()]);
        assert(views(parts@) =~= split(s@.take(0), '\n').drop_last().map_values(
            |l: Seq<char>| strip_cr(l),
        ));
    }
    while i < s.len()
        invariant
            i <= s.len(),
            split(s@.take(i as int), '\n').len() >= 1,
            views(parts@) == split(s@.take(i as int), '\n').drop_last().map_values(
                |l: Seq<char>| strip_cr(l),
            ),
            cur@ == split(s@.take(i as int), '\n').last(),
        decreases s.len() - i,
    {
        let c = s[i];
        let ghost head = split(s@.take(i as int), '\n');
        let ghost done = views(parts@);
        let ghost open = cur@;
        proof {
            assert(s@.take(i + 1).drop_last() =~= s@.take(i as int));
            assert(s@.take(i + 1).last() == c);
            lemma_split_len(s@.take(i + 1), '\n');
        }
        if c == '\n' {
            let n = cur.len();
            if n > 0 && cur[n - 1] == '\r' {
                cur.pop();
            }
            proof {
                assert(cur@ =~= strip_cr(open));
            }
            parts.push(cur);
            cur = Vec::new();
            proof {
                let next = split(s@.take(i + 1), '\n');
                assert(next =~= head.push(Seq::<char>::empty()));
                assert(next.drop_last() =~= head);
                assert(views(parts@) =~= done.push(strip_cr(open)));
                assert(views(parts@) =~= next.drop_last().map_values(
                    |l: Seq<char>| strip_cr(l),
                ));
            }
        } else {
            cur.push(c);
            proof {
                let next = split(s@.take(i + 1), '\n');
                assert(next =~= head.drop_last().push(head.last().push(c)));
                assert(next.drop_last() =~= head.drop_last());
            }
        }
        i += 1;
    }
    proof {
        assert(s@.take(i as int) =~= s@);
    }
    if cur.len() > 0 {
        let ghost done = views(parts@);
        parts.push(cur);
        proof {
            assert(views(parts@) =~= done.push(cur@));
        }
    }
    parts
}

/// Drops the empty pieces.
pub fn drop_empty(pieces: Vec<Vec<char>>) -> (out: Vec<Vec<char>>)
    ensures
        views(out@) == non_empty(views(pieces@)),
{
    let mut out: Vec<Vec<char>> = Vec::new();
    let ghost all = views(pieces@);
    let mut i: usize = 0;
    proof {
        assert(all.take(0) =~= Seq::<Seq<char>>::empty());
        assert(views(out@) =~= non_empty(all.take(0)));
    }
    while i < pieces.len()
        invariant
            i <= pieces.len(),
            all == views(pieces@),
            views(out@) == non_empty(all.take(i as int)),
        decreases pieces.len() - i,
    {
        let ghost done = views(out@);
        proof {
            assert(all.take(i + 1).drop_last() =~= all.take(i as int));
            assert(all.take(i + 1).last() == pieces@[i as int]@);
        }
        if pieces[i].len() > 0 {
            let piece = pieces[i].clone();
            proof {
                assert(piece@ =~= pieces@[i as int]@);
            }
            out.push(piece);
            proof {
                assert(views(out@) =~= done.push(pieces@[i as int]@));
            }
        }
        i += 1;
    }
    proof {
        assert(all.take(i as int) =~= all);
    }
    out
}

/// White space, as Unicode defines it.
pub open spec fn is_space(c: char) -> bool {
    ||| ('\u{9}' <= c && c <= '\u{D}')
    ||| c == ' '
    ||| c == '\u{85}'
    ||| c == '\u{A0}'
    ||| c == '\u{1680}'
    ||| ('\u{2000}' <= c && c <= '\u{200A}')
    ||| c == '\u{2028}'
    ||| c == '\u{2029}'
    ||| c == '\u{202F}'
    ||| c == '\u{205F}'
    ||| c == '\u{3000}'
}

/// A text without the white space at its two ends.
pub open spec fn trimmed(s: Seq<char>) -> Seq<char>
    decreases s.len(),
{
    if s.len() > 0 && is_space(s.last()) {
        trimmed(s.drop_last())
    } else if s.len() > 0 && is_space(s[0]) {
        trimmed(s.drop_first())
    } else {
        s
    }
}

fn is_space_char(c: char) -> (b: bool)
    ensures
        b == is_space(c),
{
    ('\u{9}' <= c && c <= '\u{D}') || c == ' ' || c == '\u{85}' || c == '\u{A0}' || c
        == '\u{1680}' || ('\u{2000}' <= c && c <= '\u{200A}') || c == '\u{2028}' || c
        == '\u{2029}' || c == '\u{202F}' || c == '\u{205F}' || c == '\u{3000}'
}

/// Removes the white space at the two ends of a text.
pub fn trim(s: &str) -> (r: String)
    ensures
        r@ == trimmed(s@),
{
    let chars = chars_of(s);
    let mut b: usize = chars.len();
    proof {
        assert(chars@.take(b as int) =~= chars@);
    }
    while b > 0 && is_space_char(chars[b - 1])
        invariant
            b <= chars.len(),
            trimmed(chars@) == trimmed(chars@.take(b as int)),
        decreases b,
    {
        proof {
            assert(chars@.take(b as int).drop_last() =~= chars@.take(b - 1));
        }
        b -= 1;
    }
    let mut a: usize = 0;
    proof {
        assert(chars@.subrange(0, b as int) =~= chars@.take(b as int));
    }
    while a < b && is_space_char(chars[a])
        invariant
            a <= b <= chars.len(),
            b > 0 ==> !is_space(chars@[b - 1]),
            trimmed(chars@) == trimmed(chars@.subrange(a as int, b as int)),
        decreases b - a,
    {
        proof {
            let piece = chars@.subrange(a as int, b as int);
            assert(piece.last() == chars@[b - 1]);
            assert(piece[0] == chars@[a as int]);
            assert(piece.drop_first() =~= chars@.subrange(a + 1, b as int));
        }
        a += 1;
    }
    proof {
        let piece = chars@.subrange(a as int, b as int);
        if a < b {
            assert(piece.last() == chars@[b - 1]);
            assert(piece[0] == chars@[a as int]);
        }
        assert(trimmed(piece) == piece);
    }
    let mut r = String::new();
    let mut i: usize = a;
    proof {
        assert(chars@.subrange(a as int, a as int) =~= Seq::<char>::empty());
    }
    while i < b
        invariant
            a <= i <= b <= chars.len(),
            r@ == chars@.subrange(a as int, i as int),
        decreases b - i,
    {
        push_char(&mut r, chars[i]);
        proof {
            assert(chars@.subrange(a as int, i + 1) =~= chars@.subrange(a as int, i as int).push(
                chars@[i as int],
            ));
        }
        i += 1;
    }
    r
}

/// The digit for a number below ten.
pub open spec fn digit_char(d: nat) -> char {
    if d == 0 {
        '0'
    } else if d == 1 {
        '1'
    } else if d == 2 {
        '2'
    } else if d == 3 {
        '3'
    } else if d == 4 {
        '4'
    } else if d == 5 {
        '5'
    } else if d == 6 {
        '6'
    } else if d == 7 {
        '7'
    } else if d == 8 {
        '8'
    } else {
        '9'
    }
}

/// A number written in base ten, without leading zeros.
pub open spec fn decimal_text(n: nat) -> Seq<char>
    decreases n,
{
    if n < 10 {
        seq![digit_char(n)]
    } else {
        decimal_text(n / 10).push(digit_char(n % 10))
    }
}

fn digit_of(d: usize) -> (c: char)
    requires
        d < 10,
    ensures
        c == digit_char(d as nat),
{
    if d == 0 {
        '0'
    } else if d == 1 {
        '1'
    } else if d == 2 {
        '2'
    } else if d == 3 {
        '3'
    } else if d == 4 {
        '4'
    } else if d == 5 {
        '5'
    } else if d == 6 {
        '6'
    } else if d == 7 {
        '7'
    } else if d == 8 {
        '8'
    } else {
        '9'
    }
}

/// Writes a number in base ten at the end of a string.
pub fn push_decimal(s: &mut String, n: usize)
    ensures
        final(s)@ == old(s)@ + decimal_text(n as nat),
    decreases n,
{
    if n >= 10 {
        push_decimal(s, n / 10);
    }
    push_char(s, digit_of(n % 10));
    proof {
        assert(final(s)@ =~= old(s)@ + decimal_text(n as nat));
    }
}

} // verus!
