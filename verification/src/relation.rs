use vstd::prelude::*;
use crate::error::JujuError;
use crate::text::{chars_of, decimal_text, joined, lemma_lines_of_joined, lemma_split_append,
    whole_line, lines, lines_of, split, split_chars, lemma_split_len, string_of, views};

verus! {

/// A related unit or group, as the agent names it: a name and a number.
#[derive(Debug)]
pub struct Relation {
    /// The name of the related unit.
    pub name: String,
    /// The number of the related unit.
    pub id: usize,
}

/// A decimal digit.
pub open spec fn is_digit(c: char) -> bool {
    '0' <= c && c <= '9'
}

/// Every character is a decimal digit.
pub open spec fn all_digits(s: Seq<char>) -> bool {
    forall|i: int| 0 <= i < s.len() ==> is_digit(#[trigger] s[i])
}

/// The number that a digit stands for.
pub open spec fn digit_value(c: char) -> nat {
    (c as nat - '0' as nat) as nat
}

/// The number that a string of digits stands for, read in base ten.
pub open spec fn decimal_value(s: Seq<char>) -> nat
    decreases s.len(),
{
    if s.len() == 0 {
        0
    } else {
        decimal_value(s.drop_last()) * 10 + digit_value(s.last())
    }
}

/// The digits of a number text: a plus sign may stand before them.
pub open spec fn digits_of(s: Seq<char>) -> Seq<char> {
    if s.len() > 1 && s[0] == '+' {
        s.drop_first()
    } else {
        s
    }
}

/// What is wrong with a string of digits read from the left, or `None`
/// where nothing is: the first character that is no digit, or the first
/// digit with which the number no longer fits, whichever comes first.
pub open spec fn digits_error(d: Seq<char>) -> Option<Seq<char>>
    decreases d.len(),
{
    if d.len() == 0 {
        None
    } else {
        match digits_error(d.drop_last()) {
            Some(e) => Some(e),
            None => if !is_digit(d.last()) {
                Some("invalid digit found in string"@)
            } else if decimal_value(d) > usize::MAX {
                Some("number too large to fit in target type"@)
            } else {
                None
            },
        }
    }
}

/// Why a text is no `usize`, or `None` where it is one: it is empty, or its
/// digits, which may follow a plus sign, are in error.
pub open spec fn number_error(s: Seq<char>) -> Option<Seq<char>> {
    if s.len() == 0 {
        Some("cannot parse integer from empty string"@)
    } else {
        digits_error(digits_of(s))
    }
}

/// What is wrong with the beginning of a string of digits is wrong with the
/// whole.
pub proof fn lemma_digits_error_prefix(d: Seq<char>, n: int)
    requires
        0 <= n <= d.len(),
        digits_error(d.take(n)) is Some,
    ensures
        digits_error(d) == digits_error(d.take(n)),
    decreases d.len(),
{
    if n == d.len() {
        assert(d.take(n) =~= d);
    } else {
        assert(d.drop_last().take(n) =~= d.take(n));
        lemma_digits_error_prefix(d.drop_last(), n);
    }
}

/// A string of digits is without error exactly if it holds digits only and
/// its number fits.
pub proof fn lemma_digits_error_none(d: Seq<char>)
    ensures
        digits_error(d) is None <==> all_digits(d) && decimal_value(d) <= usize::MAX,
    decreases d.len(),
{
    if d.len() > 0 {
        let head = d.drop_last();
        lemma_digits_error_none(head);
        if all_digits(d) {
            assert forall|i: int| 0 <= i < head.len() implies is_digit(#[trigger] head[i]) by {
                assert(head[i] == d[i]);
            }
            assert(is_digit(d[d.len() - 1]));
        }
        if digits_error(d) is None {
            assert forall|i: int| 0 <= i < d.len() implies is_digit(#[trigger] d[i]) by {
                if i < head.len() {
                    assert(head[i] == d[i]);
                }
            }
        }
    }
}

/// A number written in base ten reads back as itself.
pub proof fn lemma_decimal_round_trip(n: nat)
    ensures
        decimal_text(n).len() > 0,
        all_digits(decimal_text(n)),
        decimal_value(decimal_text(n)) == n,
    decreases n,
{
    if n < 10 {
        assert(decimal_text(n).drop_last() =~= Seq::<char>::empty());
        assert(decimal_value(decimal_text(n).drop_last()) == 0);
    } else {
        lemma_decimal_round_trip(n / 10);
        assert(decimal_text(n).drop_last() =~= decimal_text(n / 10));
    }
}

/// The number that a digit stands for.
fn value_of_digit(c: char) -> (v: usize)
    requires
        is_digit(c),
    ensures
        v == digit_value(c),
        v <= 9,
{
    (c as u32 - '0' as u32) as usize
}

/// Reads a non-negative decimal integer.
pub fn parse_usize(s: &Vec<char>) -> (r: Result<usize, JujuError>)
    ensures
        match r {
            Ok(n) => number_error(s@) is None && n == decimal_value(digits_of(s@)),
            Err(e) => e is ParseIntError && number_error(s@) == Some(e.message()),
        },
{
    if s.len() == 0 {
        return Err(JujuError::ParseIntError("cannot parse integer from empty string".to_owned()));
    }
    let start: usize = if s.len() > 1 && s[0] == '+' {
        1
    } else {
        0
    };
    let ghost digits = digits_of(s@);
    proof {
        assert(digits =~= s@.subrange(start as int, s@.len() as int));
        assert(digits.take(0) =~= Seq::<char>::empty());
    }
    let mut value: usize = 0;
    let mut k: usize = start;
    while k < s.len()
        invariant
            start <= k <= s.len(),
            s@.len() > 0,
            digits == digits_of(s@),
            digits == s@.subrange(start as int, s@.len() as int),
            digits_error(digits.take(k - start)) is None,
            value == decimal_value(digits.take(k - start)),
        decreases s.len() - k,
    {
        let c = s[k];
        let ghost read = digits.take(k - start + 1);
        proof {
            assert(digits[k - start] == c);
            assert(read.drop_last() =~= digits.take(k - start));
            assert(read.last() == c);
        }
        if !('0' <= c && c <= '9') {
            proof {
                lemma_digits_error_prefix(digits, k - start + 1);
            }
            return Err(JujuError::ParseIntError("invalid digit found in string".to_owned()));
        }
        let d = value_of_digit(c);
        proof {
            assert(decimal_value(read) == value * 10 + d);
        }
        if value > (usize::MAX - d) / 10 {
            proof {
                assert(value * 10 + d > usize::MAX);
                lemma_digits_error_prefix(digits, k - start + 1);
            }
            return Err(
                JujuError::ParseIntError("number too large to fit in target type".to_owned()),
            );
        }
        value = value * 10 + d;
        k += 1;
    }
    proof {
        assert(digits.take(k - start) =~= digits);
    }
    Ok(value)
}

/// The name in a relation line: what stands before the first delimiter.
pub open spec fn name_of(line: Seq<char>, d: char) -> Seq<char> {
    split(line, d)[0]
}

/// The number text in a relation line: what stands between the first
/// delimiter and the second, and nothing where the line has no delimiter.
pub open spec fn id_text_of(line: Seq<char>, d: char) -> Seq<char> {
    if split(line, d).len() > 1 {
        split(line, d)[1]
    } else {
        Seq::empty()
    }
}

/// The relation is the one that the line stands for.
pub open spec fn is_relation_of(r: Relation, line: Seq<char>, d: char) -> bool {
    &&& r.name@ == name_of(line, d)
    &&& number_error(id_text_of(line, d)) is None
    &&& r.id == decimal_value(digits_of(id_text_of(line, d)))
}

/// `r` is the reading of a list of relations, one per line: every line's
/// relation, in order, or the error of the first line whose number cannot be
/// read.
pub open spec fn relations_read(
    text: Seq<char>,
    delimiter: char,
    r: Result<Vec<Relation>, JujuError>,
) -> bool {
    match r {
        Ok(v) => {
            &&& v@.len() == lines(text).len()
            &&& forall|i: int|
                0 <= i < v@.len() ==> is_relation_of(#[trigger] v@[i], lines(text)[i], delimiter)
        },
        Err(e) => {
            &&& e is ParseIntError
            &&& exists|i: int|
                {
                    &&& 0 <= i < lines(text).len()
                    &&& forall|j: int|
                        0 <= j < i ==> number_error(
                            #[trigger] id_text_of(lines(text)[j], delimiter),
                        ) is None
                    &&& #[trigger] number_error(id_text_of(lines(text)[i], delimiter)) == Some(
                        e.message(),
                    )
                }
        },
    }
}

/// A number as a list can hold it: digits only, at least one, and a value
/// that fits. Leading zeros are in order.
pub open spec fn number_text(t: Seq<char>) -> bool {
    &&& t.len() > 0
    &&& all_digits(t)
    &&& decimal_value(t) <= usize::MAX
}

/// The line that names a related unit: its name, the delimiter, its number
/// as written.
pub open spec fn relation_line(unit: (Seq<char>, Seq<char>), d: char) -> Seq<char> {
    unit.0 + seq![d] + unit.1
}

/// The lines that name the given units, in order.
pub open spec fn relation_lines(units: Seq<(Seq<char>, Seq<char>)>, d: char) -> Seq<Seq<char>> {
    Seq::new(units.len(), |i: int| relation_line(units[i], d))
}

/// Units that a list can name one for one with the delimiter `d`: the
/// delimiter is neither a digit nor a line feed, no name holds the delimiter
/// or a line feed, and every number is written in digits and fits.
pub open spec fn listable(units: Seq<(Seq<char>, Seq<char>)>, d: char) -> bool {
    &&& !is_digit(d)
    &&& d != '\n'
    &&& forall|i: int, j: int|
        0 <= i < units.len() && 0 <= j < units[i].0.len() ==> (#[trigger] units[i]).0[j] != d
            && #[trigger] units[i].0[j] != '\n'
    &&& forall|i: int| 0 <= i < units.len() ==> number_text((#[trigger] units[i]).1)
}

/// A number written in base ten is a number as a list can hold it, where it
/// fits.
pub proof fn lemma_decimal_text_is_number_text(n: nat)
    requires
        n <= usize::MAX,
    ensures
        number_text(decimal_text(n)),
{
    lemma_decimal_round_trip(n);
}

/// A unit's line gives back its name and its number as written, and that
/// number reads without error.
pub proof fn lemma_fields_of_relation_line(unit: (Seq<char>, Seq<char>), d: char)
    requires
        !is_digit(d),
        forall|j: int| 0 <= j < unit.0.len() ==> unit.0[j] != d,
        number_text(unit.1),
    ensures
        name_of(relation_line(unit, d), d) == unit.0,
        id_text_of(relation_line(unit, d), d) == unit.1,
        number_error(unit.1) is None,
        digits_of(unit.1) == unit.1,
{
    let none = Seq::<char>::empty();
    let number = unit.1;
    assert(is_digit(number[0]));
    assert(digits_of(number) == number);
    lemma_digits_error_none(number);
    lemma_split_append(none, unit.0, d);
    assert(none + unit.0 =~= unit.0);
    assert(split(none, d) =~= seq![none]);
    assert(split(unit.0, d) =~= seq![unit.0]);
    let named = unit.0 + seq![d];
    assert(named.drop_last() =~= unit.0);
    assert(named.last() == d);
    assert(split(named, d) =~= seq![unit.0, none]);
    assert forall|j: int| 0 <= j < number.len() implies number[j] != d by {
        assert(is_digit(number[j]));
    }
    lemma_split_append(named, number, d);
    assert(none + number =~= number);
    assert(split(relation_line(unit, d), d) =~= seq![unit.0, number]);
}

/// Reading the list that names the given units yields those units, in
/// order: each with its name, and with the value of its number as written.
pub proof fn lemma_parse_of_relation_lines(
    units: Seq<(Seq<char>, Seq<char>)>,
    d: char,
    r: Result<Vec<Relation>, JujuError>,
)
    requires
        listable(units, d),
        relations_read(joined(relation_lines(units, d)), d, r),
    ensures
        r is Ok,
        r->Ok_0@.len() == units.len(),
        forall|i: int|
            0 <= i < units.len() ==> (#[trigger] r->Ok_0@[i]).name@ == units[i].0 && r->Ok_0@[i].id
                == decimal_value(units[i].1),
{
    let ls = relation_lines(units, d);
    assert forall|i: int| 0 <= i < ls.len() implies whole_line(#[trigger] ls[i]) by {
        let name = units[i].0;
        let number = units[i].1;
        let line = relation_line(units[i], d);
        assert(number_text(number));
        assert(line.last() == number.last());
        assert(is_digit(number[number.len() - 1]));
        assert forall|j: int| 0 <= j < line.len() implies line[j] != '\n' by {
            if j < name.len() {
                assert(line[j] == units[i].0[j]);
            } else if j > name.len() {
                assert(line[j] == number[j - name.len() - 1]);
                assert(is_digit(number[j - name.len() - 1]));
            }
        }
    }
    lemma_lines_of_joined(ls);
    assert forall|i: int| 0 <= i < units.len() implies name_of(#[trigger] ls[i], d) == units[i].0
        && id_text_of(ls[i], d) == units[i].1 && number_error(id_text_of(ls[i], d)) is None
        && digits_of(id_text_of(ls[i], d)) == units[i].1 by {
        assert forall|j: int| 0 <= j < units[i].0.len() implies units[i].0[j] != d by {
            assert(units[i].0[j] != d);
        }
        assert(number_text(units[i].1));
        lemma_fields_of_relation_line(units[i], d);
    }
    match r {
        Ok(v) => {
            assert forall|i: int| 0 <= i < units.len() implies (#[trigger] v@[i]).name@
                == units[i].0 && v@[i].id == decimal_value(units[i].1) by {
                assert(is_relation_of(v@[i], ls[i], d));
            }
        },
        Err(e) => {
            let i = choose|i: int|
                {
                    &&& 0 <= i < ls.len()
                    &&& forall|j: int|
                        0 <= j < i ==> number_error(#[trigger] id_text_of(ls[j], d)) is None
                    &&& #[trigger] number_error(id_text_of(ls[i], d)) == Some(e.message())
                };
            assert(number_error(id_text_of(ls[i], d)) is None);
        },
    }
}

/// One line whose number cannot be read fails the whole list.
pub proof fn lemma_bad_number_fails_the_list(
    text: Seq<char>,
    d: char,
    i: int,
    r: Result<Vec<Relation>, JujuError>,
)
    requires
        0 <= i < lines(text).len(),
        number_error(id_text_of(lines(text)[i], d)) is Some,
        relations_read(text, d, r),
    ensures
        r is Err,
        r->Err_0 is ParseIntError,
{
    if r is Ok {
        assert(is_relation_of(r->Ok_0@[i], lines(text)[i], d));
    }
}

/// Reads a list of relations, one per line: a name, the delimiter, a number.
/// One line whose number cannot be read fails the whole list.
pub fn parse_relations(text: &str, delimiter: char) -> (r: Result<Vec<Relation>, JujuError>)
    ensures
        relations_read(text@, delimiter, r),
{
    let chars = chars_of(text);
    let ls = lines_of(&chars);
    let ghost all = views(ls@);
    let mut out: Vec<Relation> = Vec::new();
    let mut i: usize = 0;
    while i < ls.len()
        invariant
            i <= ls.len(),
            all == views(ls@),
            all == lines(text@),
            out@.len() == i,
            forall|j: int| 0 <= j < i ==> is_relation_of(#[trigger] out@[j], all[j], delimiter),
        decreases ls.len() - i,
    {
        let fields = split_chars(&ls[i], delimiter);
        proof {
            lemma_split_len(all[i as int], delimiter);
            assert(views(fields@)[0] == fields@[0]@);
        }
        let id = if fields.len() > 1 {
            proof {
                assert(views(fields@)[1] == fields@[1]@);
            }
            parse_usize(&fields[1])
        } else {
            let none: Vec<char> = Vec::new();
            proof {
                assert(none@ =~= Seq::<char>::empty());
            }
            parse_usize(&none)
        };
        match id {
            Ok(n) => {
                let name = string_of(&fields[0]);
                out.push(Relation { name: name, id: n });
            },
            Err(e) => {
                proof {
                    assert(number_error(id_text_of(all[i as int], delimiter)) == Some(
                        e.message(),
                    ));
                    assert forall|j: int| 0 <= j < i implies number_error(
                        #[trigger] id_text_of(all[j], delimiter),
                    ) is None by {
                        assert(is_relation_of(out@[j], all[j], delimiter));
                    }
                }
                return Err(e);
            },
        }
        i += 1;
    }
    Ok(out)
}

} // verus!
