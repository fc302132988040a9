use vstd::prelude::*;
use crate::text::{chars_of, drop_empty, lemma_non_empty_members, lemma_split_pieces_free, lines,
    lines_of, non_empty, split, split_chars, string_of, views};

verus! {

/// The map that a list of key/value pairs stands for when they are entered
/// one after the other: a later pair replaces an earlier one with its key.
pub open spec fn pairs_map(pairs: Seq<(String, String)>) -> Map<Seq<char>, Seq<char>>
    decreases pairs.len(),
{
    if pairs.len() == 0 {
        Map::empty()
    } else {
        pairs_map(pairs.drop_last()).insert(pairs.last().0@, pairs.last().1@)
    }
}

/// No two pairs have the same key.
pub open spec fn distinct_keys(pairs: Seq<(String, String)>) -> bool {
    forall|i: int, j: int| 0 <= i < j < pairs.len() ==> pairs[i].0@ != pairs[j].0@
}

/// A key is in the map exactly if some pair has it.
pub proof fn lemma_pairs_map_dom(pairs: Seq<(String, String)>, key: Seq<char>)
    ensures
        pairs_map(pairs).contains_key(key) <==> exists|i: int|
            0 <= i < pairs.len() && #[trigger] pairs[i].0@ == key,
    decreases pairs.len(),
{
    if pairs.len() > 0 {
        let head = pairs.drop_last();
        lemma_pairs_map_dom(head, key);
        if pairs_map(pairs).contains_key(key) {
            if pairs.last().0@ == key {
                assert(pairs[pairs.len() - 1].0@ == key);
            } else {
                let i = choose|i: int| 0 <= i < head.len() && #[trigger] head[i].0@ == key;
                assert(pairs[i].0@ == key);
            }
        }
        if exists|i: int| 0 <= i < pairs.len() && #[trigger] pairs[i].0@ == key {
            let i = choose|i: int| 0 <= i < pairs.len() && #[trigger] pairs[i].0@ == key;
            if i < head.len() {
                assert(head[i].0@ == key);
            }
        }
    }
}

/// With distinct keys, each pair's value is the one that the map holds.
pub proof fn lemma_pairs_map_value(pairs: Seq<(String, String)>, i: int)
    requires
        distinct_keys(pairs),
        0 <= i < pairs.len(),
    ensures
        pairs_map(pairs).contains_key(pairs[i].0@),
        pairs_map(pairs)[pairs[i].0@] == pairs[i].1@,
    decreases pairs.len(),
{
    let head = pairs.drop_last();
    if i < pairs.len() - 1 {
        assert(distinct_keys(head)) by {
            assert forall|a: int, b: int| 0 <= a < b < head.len() implies head[a].0@
                != head[b].0@ by {
                assert(pairs[a].0@ != pairs[b].0@);
            }
        }
        lemma_pairs_map_value(head, i);
        assert(head[i] == pairs[i]);
        assert(pairs[i].0@ != pairs[pairs.len() - 1].0@);
    }
}

/// With distinct keys, replacing the value of one pair is entering its key
/// anew.
pub proof fn lemma_pairs_map_update(pairs: Seq<(String, String)>, i: int, pair: (String, String))
    requires
        distinct_keys(pairs),
        0 <= i < pairs.len(),
        pairs[i].0@ == pair.0@,
    ensures
        distinct_keys(pairs.update(i, pair)),
        pairs_map(pairs.update(i, pair)) == pairs_map(pairs).insert(pair.0@, pair.1@),
    decreases pairs.len(),
{
    let next = pairs.update(i, pair);
    assert(distinct_keys(next)) by {
        assert forall|a: int, b: int| 0 <= a < b < next.len() implies next[a].0@
            != next[b].0@ by {
            assert(pairs[a].0@ != pairs[b].0@);
        }
    }
    let head = pairs.drop_last();
    if i == pairs.len() - 1 {
        assert(next.drop_last() =~= head);
        assert(pairs_map(next) =~= pairs_map(pairs).insert(pair.0@, pair.1@));
    } else {
        assert(distinct_keys(head)) by {
            assert forall|a: int, b: int| 0 <= a < b < head.len() implies head[a].0@
                != head[b].0@ by {
                assert(pairs[a].0@ != pairs[b].0@);
            }
        }
        lemma_pairs_map_update(head, i, pair);
        assert(head[i] == pairs[i]);
        assert(next.drop_last() =~= head.update(i, pair));
        assert(next.last() == pairs.last());
        assert(pairs[i].0@ != pairs[pairs.len() - 1].0@);
        assert(pairs_map(next) =~= pairs_map(pairs).insert(pair.0@, pair.1@));
    }
}

/// With distinct keys, the map has as many keys as there are pairs.
pub proof fn lemma_pairs_map_len(pairs: Seq<(String, String)>)
    requires
        distinct_keys(pairs),
    ensures
        pairs_map(pairs).dom().finite(),
        pairs_map(pairs).len() == pairs.len(),
    decreases pairs.len(),
{
    if pairs.len() > 0 {
        let head = pairs.drop_last();
        let key = pairs.last().0@;
        assert(distinct_keys(head)) by {
            assert forall|a: int, b: int| 0 <= a < b < head.len() implies head[a].0@
                != head[b].0@ by {
                assert(pairs[a].0@ != pairs[b].0@);
            }
        }
        lemma_pairs_map_len(head);
        lemma_pairs_map_dom(head, key);
        assert(!pairs_map(head).contains_key(key)) by {
            if pairs_map(head).contains_key(key) {
                let i = choose|i: int| 0 <= i < head.len() && #[trigger] head[i].0@ == key;
                assert(pairs[i].0@ != pairs[pairs.len() - 1].0@);
            }
        }
        assert(pairs_map(pairs).dom() =~= pairs_map(head).dom().insert(key));
    } else {
        assert(pairs_map(pairs).dom() =~= Set::<Seq<char>>::empty());
    }
}

/// A configuration: string values under distinct string keys.
#[derive(Debug)]
pub struct ConfigMap {
    /// The entries, each key once.
    pub entries: Vec<(String, String)>,
}

impl View for ConfigMap {
    type V = Map<Seq<char>, Seq<char>>;

    open spec fn view(&self) -> Map<Seq<char>, Seq<char>> {
        pairs_map(self.entries@)
    }
}

impl ConfigMap {
    /// No key occurs twice.
    pub open spec fn wf(&self) -> bool {
        distinct_keys(self.entries@)
    }

    /// The empty configuration.
    pub fn new() -> (m: ConfigMap)
        ensures
            m.wf(),
            m@ == Map::<Seq<char>, Seq<char>>::empty(),
            m.entries@.len() == 0,
    {
        ConfigMap { entries: Vec::new() }
    }

    /// The number of keys.
    pub fn len(&self) -> (n: usize)
        requires
            self.wf(),
        ensures
            n == self@.len(),
            n == self.entries@.len(),
    {
        proof {
            lemma_pairs_map_len(self.entries@);
        }
        self.entries.len()
    }

    /// Where `key` stands among the entries, if it is there.
    fn position(&self, key: &String) -> (r: Option<usize>)
        requires
            self.wf(),
        ensures
            match r {
                Some(i) => i < self.entries@.len() && self.entries@[i as int].0@ == key@,
                None => !self@.contains_key(key@),
            },
    {
        let mut i: usize = 0;
        while i < self.entries.len()
            invariant
                i <= self.entries.len(),
                forall|j: int| 0 <= j < i ==> self.entries@[j].0@ != key@,
            decreases self.entries.len() - i,
        {
            if self.entries[i].0 == *key {
                return Some(i);
            }
            i += 1;
        }
        proof {
            lemma_pairs_map_dom(self.entries@, key@);
        }
        None
    }

    /// The value under `key`, if the key is present.
    pub fn get(&self, key: &String) -> (r: Option<&String>)
        requires
            self.wf(),
        ensures
            match r {
                Some(v) => self@.contains_key(key@) && self@[key@] == v@,
                None => !self@.contains_key(key@),
            },
    {
        match self.position(key) {
            Some(i) => {
                proof {
                    lemma_pairs_map_value(self.entries@, i as int);
                }
                Some(&self.entries[i].1)
            },
            None => None,
        }
    }

    /// Enters `value` under `key`, in place of the value that was there.
    pub fn insert(&mut self, key: String, value: String)
        requires
            old(self).wf(),
        ensures
            final(self).wf(),
            final(self)@ == old(self)@.insert(key@, value@),
            final(self).entries@.len() == old(self).entries@.len() + (if old(self)@.contains_key(
                key@,
            ) {
                0int
            } else {
                1int
            }),
    {
        let ghost before = self.entries@;
        match self.position(&key) {
            Some(i) => {
                proof {
                    lemma_pairs_map_update(before, i as int, (key, value));
                    lemma_pairs_map_dom(before, key@);
                }
                self.entries.set(i, (key, value));
            },
            None => {
                proof {
                    lemma_pairs_map_dom(before, key@);
                }
                self.entries.push((key, value));
                proof {
                    assert(self.entries@.drop_last() =~= before);
                }
            },
        }
    }
}

/// The entry that a line of a configuration dump stands for: its two
/// non-empty pieces between colons, if it has exactly two.
pub open spec fn entry_of(line: Seq<char>) -> Option<(Seq<char>, Seq<char>)> {
    let pieces = non_empty(split(line, ':'));
    if pieces.len() == 2 {
        Some((pieces[0], pieces[1]))
    } else {
        None
    }
}

/// The configuration that a list of lines stands for: the entries of its
/// lines, entered in order; a line that stands for no entry is passed over.
pub open spec fn config_of(ls: Seq<Seq<char>>) -> Map<Seq<char>, Seq<char>>
    decreases ls.len(),
{
    if ls.len() == 0 {
        Map::empty()
    } else {
        let head = config_of(ls.drop_last());
        match entry_of(ls.last()) {
            Some((k, v)) => head.insert(k, v),
            None => head,
        }
    }
}

/// A key or a value as it can come out of a line: not empty, and without a
/// colon.
pub open spec fn is_field(s: Seq<char>) -> bool {
    &&& s.len() > 0
    &&& forall|j: int| 0 <= j < s.len() ==> s[j] != ':'
}

/// Line `i` is the last that stands for an entry with the key `key`, and
/// `value` is what it gives the key.
pub open spec fn is_last_entry(
    ls: Seq<Seq<char>>,
    i: int,
    key: Seq<char>,
    value: Seq<char>,
) -> bool {
    &&& 0 <= i < ls.len()
    &&& entry_of(ls[i]) == Some((key, value))
    &&& forall|j: int|
        i < j < ls.len() && entry_of(#[trigger] ls[j]) is Some ==> (entry_of(ls[j])->0).0 != key
}

/// The key and the value of a line's entry are not empty and hold no colon.
pub proof fn lemma_entry_fields(line: Seq<char>)
    requires
        entry_of(line) is Some,
    ensures
        is_field((entry_of(line)->0).0),
        is_field((entry_of(line)->0).1),
{
    let pieces = split(line, ':');
    let kept = non_empty(pieces);
    lemma_split_pieces_free(line, ':');
    lemma_non_empty_members(pieces);
    assert(kept[0].len() > 0 && pieces.contains(kept[0]));
    assert(kept[1].len() > 0 && pieces.contains(kept[1]));
    let a = choose|a: int| 0 <= a < pieces.len() && pieces[a] == kept[0];
    let b = choose|b: int| 0 <= b < pieces.len() && pieces[b] == kept[1];
    assert forall|j: int| 0 <= j < kept[0].len() implies kept[0][j] != ':' by {
        assert(pieces[a][j] != ':');
    }
    assert forall|j: int| 0 <= j < kept[1].len() implies kept[1][j] != ':' by {
        assert(pieces[b][j] != ':');
    }
}

/// Nothing empty or malformed is in a configuration: each of its keys, and
/// the value under it, is not empty and holds no colon, and the two are the
/// entry of the last line that has the key.
pub proof fn lemma_config_entries(ls: Seq<Seq<char>>, key: Seq<char>)
    requires
        config_of(ls).contains_key(key),
    ensures
        is_field(key),
        is_field(config_of(ls)[key]),
        exists|i: int| is_last_entry(ls, i, key, config_of(ls)[key]),
    decreases ls.len(),
{
    if ls.len() > 0 {
        let head = ls.drop_last();
        let last = ls.len() - 1;
        if entry_of(ls.last()) is Some && (entry_of(ls.last())->0).0 == key {
            lemma_entry_fields(ls.last());
            assert(is_last_entry(ls, last, key, config_of(ls)[key]));
        } else {
            assert(config_of(head).contains_key(key));
            assert(config_of(ls)[key] == config_of(head)[key]);
            lemma_config_entries(head, key);
            let i = choose|i: int| is_last_entry(head, i, key, config_of(head)[key]);
            assert(head[i] == ls[i]);
            assert forall|j: int| i < j < ls.len() && entry_of(#[trigger] ls[j]) is Some implies
                (entry_of(ls[j])->0).0 != key by {
                if j < head.len() {
                    assert(head[j] == ls[j]);
                }
            }
            assert(is_last_entry(ls, i, key, config_of(ls)[key]));
        }
    }
}

/// A line's entry is in the configuration unless a later line has its key.
pub proof fn lemma_last_entry_is_kept(ls: Seq<Seq<char>>, i: int, key: Seq<char>, value: Seq<char>)
    requires
        is_last_entry(ls, i, key, value),
    ensures
        config_of(ls).contains_key(key),
        config_of(ls)[key] == value,
    decreases ls.len(),
{
    if i < ls.len() - 1 {
        let head = ls.drop_last();
        assert(head[i] == ls[i]);
        assert forall|j: int| i < j < head.len() && entry_of(#[trigger] head[j]) is Some implies
            (entry_of(head[j])->0).0 != key by {
            assert(head[j] == ls[j]);
        }
        lemma_last_entry_is_kept(head, i, key, value);
        assert(ls[ls.len() - 1] == ls.last());
    }
}

/// Reads a configuration dump: one `key:value` entry per line.
pub fn parse_config(text: &str) -> (m: ConfigMap)
    ensures
        m.wf(),
        m@ == config_of(lines(text@)),
{
    let chars = chars_of(text);
    let ls = lines_of(&chars);
    let mut m = ConfigMap::new();
    let ghost all = views(ls@);
    let mut i: usize = 0;
    proof {
        assert(all.take(0) =~= Seq::<Seq<char>>::empty());
    }
    while i < ls.len()
        invariant
            i <= ls.len(),
            all == views(ls@),
            m.wf(),
            m@ == config_of(all.take(i as int)),
        decreases ls.len() - i,
    {
        proof {
            assert(all.take(i + 1).drop_last() =~= all.take(i as int));
            assert(all.take(i + 1).last() == ls@[i as int]@);
        }
        let pieces = drop_empty(split_chars(&ls[i], ':'));
        if pieces.len() == 2 {
            let key = string_of(&pieces[0]);
            let value = string_of(&pieces[1]);
            m.insert(key, value);
        }
        i += 1;
    }
    proof {
        assert(all.take(i as int) =~= all);
    }
    m
}

} // verus!
