use vstd::prelude::*;
use crate::config::{config_of, entry_of, ConfigMap};
use crate::text::{joined, lemma_lines_of_joined, lemma_split_append, lines, non_empty, split,
    whole_line};

verus! {

/// A key or a value as a configuration dump can hold it: not empty, and
/// without colon or line feed.
pub open spec fn plain(s: Seq<char>) -> bool {
    &&& s.len() > 0
    &&& forall|i: int| 0 <= i < s.len() ==> #[trigger] s[i] != ':' && s[i] != '\n'
}

/// The line of a dump that holds one entry.
pub open spec fn dump_line(entry: (Seq<char>, Seq<char>)) -> Seq<char> {
    entry.0 + seq![':'] + entry.1
}

/// The lines of a dump that holds the given entries, in order.
pub open spec fn dump_lines(entries: Seq<(Seq<char>, Seq<char>)>) -> Seq<Seq<char>> {
    Seq::new(entries.len(), |i: int| dump_line(entries[i]))
}

/// The dump that holds the given entries: one line each, ended by a line
/// feed.
pub open spec fn dump(entries: Seq<(Seq<char>, Seq<char>)>) -> Seq<char> {
    joined(dump_lines(entries))
}

/// Entries that a dump holds one for one: plain keys and values, no value
/// that ends in a carriage return, no key twice.
pub open spec fn well_formed(entries: Seq<(Seq<char>, Seq<char>)>) -> bool {
    &&& forall|i: int|
        0 <= i < entries.len() ==> plain((#[trigger] entries[i]).0) && plain(entries[i].1)
            && entries[i].1.last() != '\r'
    &&& forall|i: int, j: int|
        0 <= i < j < entries.len() ==> (#[trigger] entries[i]).0 != (#[trigger] entries[j]).0
}

/// A line of two plain fields stands for the entry of the two.
pub proof fn lemma_entry_of_dump_line(entry: (Seq<char>, Seq<char>))
    requires
        plain(entry.0),
        plain(entry.1),
    ensures
        entry_of(dump_line(entry)) == Some(entry),
{
    let none = Seq::<char>::empty();
    lemma_split_append(none, entry.0, ':');
    assert(none + entry.0 =~= entry.0);
    assert(split(none, ':') =~= seq![none]);
    assert(split(entry.0, ':') =~= seq![entry.0]);
    let keyed = entry.0 + seq![':'];
    assert(keyed.drop_last() =~= entry.0);
    assert(keyed.last() == ':');
    assert(split(keyed, ':') =~= seq![entry.0, none]);
    lemma_split_append(keyed, entry.1, ':');
    assert(none + entry.1 =~= entry.1);
    let pieces = split(dump_line(entry), ':');
    assert(pieces =~= seq![entry.0, entry.1]);
    assert(pieces.drop_last() =~= seq![entry.0]);
    assert(pieces.drop_last().drop_last() =~= Seq::<Seq<char>>::empty());
    assert(non_empty(pieces.drop_last().drop_last()) =~= Seq::<Seq<char>>::empty());
    assert(non_empty(pieces.drop_last()) =~= seq![entry.0]);
    assert(non_empty(pieces) =~= seq![entry.0, entry.1]);
}

/// The lines of a dump are the lines of its entries.
pub proof fn lemma_lines_of_dump(entries: Seq<(Seq<char>, Seq<char>)>)
    requires
        well_formed(entries),
    ensures
        lines(dump(entries)) == dump_lines(entries),
{
    assert forall|i: int| 0 <= i < entries.len() implies whole_line(
        #[trigger] dump_lines(entries)[i],
    ) by {
        let k = entries[i].0;
        let v = entries[i].1;
        let line = dump_line(entries[i]);
        assert(plain(k) && plain(v));
        assert(line.last() == v.last());
        assert forall|j: int| 0 <= j < line.len() implies line[j] != '\n' by {
            if j < k.len() {
                assert(line[j] == k[j]);
            } else if j > k.len() {
                assert(line[j] == v[j - k.len() - 1]);
            }
        }
    }
    lemma_lines_of_joined(dump_lines(entries));
}

/// The configuration of a well-formed dump's lines holds each entry, no
/// other key, and as many keys as there are entries.
pub proof fn lemma_config_of_dump_lines(entries: Seq<(Seq<char>, Seq<char>)>)
    requires
        well_formed(entries),
    ensures
        forall|i: int|
            0 <= i < entries.len() ==> config_of(dump_lines(entries)).contains_key(
                (#[trigger] entries[i]).0,
            ) && config_of(dump_lines(entries))[entries[i].0] == entries[i].1,
        forall|k: Seq<char>| #[trigger]
            config_of(dump_lines(entries)).contains_key(k) ==> exists|i: int|
                0 <= i < entries.len() && (#[trigger] entries[i]).0 == k,
        config_of(dump_lines(entries)).dom().finite(),
        config_of(dump_lines(entries)).len() == entries.len(),
    decreases entries.len(),
{
    if entries.len() > 0 {
        let head = entries.drop_last();
        let last = entries.last();
        assert(well_formed(head)) by {
            assert forall|i: int| 0 <= i < head.len() implies plain((#[trigger] head[i]).0)
                && plain(head[i].1) && head[i].1.last() != '\r' by {
                assert(head[i] == entries[i]);
            }
            assert forall|i: int, j: int| 0 <= i < j < head.len() implies (#[trigger] head[i]).0
                != (#[trigger] head[j]).0 by {
                assert(head[i] == entries[i]);
                assert(head[j] == entries[j]);
            }
        }
        lemma_config_of_dump_lines(head);
        assert(plain(entries[entries.len() - 1].0));
        lemma_entry_of_dump_line(last);
        assert(dump_lines(entries).drop_last() =~= dump_lines(head));
        assert(dump_lines(entries).last() == dump_line(last));
        let before = config_of(dump_lines(head));
        let m = config_of(dump_lines(entries));
        assert(m == before.insert(last.0, last.1));
        assert(!before.contains_key(last.0)) by {
            if before.contains_key(last.0) {
                let i = choose|i: int| 0 <= i < head.len() && (#[trigger] head[i]).0 == last.0;
                assert(head[i] == entries[i]);
                assert(entries[i].0 != entries[entries.len() - 1].0);
            }
        }
        assert forall|i: int| 0 <= i < entries.len() implies m.contains_key(
            (#[trigger] entries[i]).0,
        ) && m[entries[i].0] == entries[i].1 by {
            if i < head.len() {
                assert(head[i] == entries[i]);
                assert(before.contains_key(head[i].0));
            }
        }
        assert forall|k: Seq<char>| #[trigger] m.contains_key(k) implies exists|i: int|
            0 <= i < entries.len() && (#[trigger] entries[i]).0 == k by {
            if k == last.0 {
                assert(entries[entries.len() - 1].0 == k);
            } else {
                assert(before.contains_key(k));
                let i = choose|i: int| 0 <= i < head.len() && (#[trigger] head[i]).0 == k;
                assert(head[i] == entries[i]);
                assert(entries[i].0 == k);
            }
        }
        assert(m.dom() =~= before.dom().insert(last.0));
    } else {
        assert(config_of(dump_lines(entries)) =~= Map::<Seq<char>, Seq<char>>::empty());
    }
}

/// Reading a well-formed dump of N entries with distinct keys yields a
/// configuration of exactly N keys, each with the value that the dump gives
/// it.
pub proof fn lemma_parse_of_dump(entries: Seq<(Seq<char>, Seq<char>)>, parsed: ConfigMap)
    requires
        well_formed(entries),
        parsed@ == config_of(lines(dump(entries))),
    ensures
        parsed@.dom().finite(),
        parsed@.len() == entries.len(),
        forall|i: int|
            0 <= i < entries.len() ==> parsed@.contains_key((#[trigger] entries[i]).0)
                && parsed@[entries[i].0] == entries[i].1,
{
    lemma_lines_of_dump(entries);
    lemma_config_of_dump_lines(entries);
}

/// A line that does not have exactly two non-empty pieces between colons
/// changes nothing, wherever it stands among the lines.
pub proof fn lemma_malformed_line_is_skipped(
    before: Seq<Seq<char>>,
    line: Seq<char>,
    after: Seq<Seq<char>>,
)
    requires
        non_empty(split(line, ':')).len() != 2,
    ensures
        config_of(before.push(line) + after) == config_of(before + after),
    decreases after.len(),
{
    if after.len() == 0 {
        assert(before.push(line) + after =~= before.push(line));
        assert(before + after =~= before);
        assert(before.push(line).drop_last() =~= before);
    } else {
        lemma_malformed_line_is_skipped(before, line, after.drop_last());
        assert((before.push(line) + after).drop_last() =~= before.push(line) + after.drop_last());
        assert((before + after).drop_last() =~= before + after.drop_last());
        assert((before.push(line) + after).last() == after.last());
        assert((before + after).last() == after.last());
    }
}

/// Reading the same text twice yields the same configuration.
pub proof fn lemma_parse_is_repeatable(text: Seq<char>, first: ConfigMap, second: ConfigMap)
    requires
        first@ == config_of(lines(text)),
        second@ == config_of(lines(text)),
    ensures
        first@ == second@,
{
}

} // verus!
