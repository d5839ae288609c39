//! The mapping from output names to the workspace numbers they show, and its
//! JSON text.
use vstd::prelude::*;
use crate::model::WsError;
use std::collections::BTreeMap;

verus! {

/// The map that a list of entries denotes; a later entry for the same output
/// replaces an earlier one.
pub open spec fn entries_map(s: Seq<(String, Vec<i32>)>) -> Map<Seq<char>, Seq<i32>>
    decreases s.len(),
{
    if s.len() == 0 {
        Map::empty()
    } else {
        entries_map(s.drop_last()).insert(s.last().0@, s.last().1@)
    }
}

/// No output occurs in two entries.
pub open spec fn keys_unique(s: Seq<(String, Vec<i32>)>) -> bool {
    forall|i: int, j: int| 0 <= i < j < s.len() ==> s[i].0@ != s[j].0@
}

/// The index of the entry for `output`, if there is one.
pub open spec fn entry_index(s: Seq<(String, Vec<i32>)>, output: Seq<char>) -> Option<int> {
    if exists|i: int| 0 <= i < s.len() && s[i].0@ == output {
        Some(choose|i: int| 0 <= i < s.len() && s[i].0@ == output)
    } else {
        None
    }
}

/// The index of the first entry whose numbers hold `num`.
pub open spec fn first_claimant(s: Seq<(String, Vec<i32>)>, num: i32) -> Option<int> {
    if exists|i: int| 0 <= i < s.len() && s[i].1@.contains(num) {
        Some(
            choose|i: int|
                0 <= i < s.len() && s[i].1@.contains(num) && forall|j: int|
                    0 <= j < i ==> !s[j].1@.contains(num),
        )
    } else {
        None
    }
}

/// The output names of a mapping, with the workspace numbers each one shows.
pub struct Mapping {
    entries: Vec<(String, Vec<i32>)>,
}

impl View for Mapping {
    type V = Map<Seq<char>, Seq<i32>>;

    open spec fn view(&self) -> Map<Seq<char>, Seq<i32>> {
        entries_map(self.spec_entries())
    }
}

proof fn lemma_entries_map_dom(s: Seq<(String, Vec<i32>)>)
    ensures
        entries_map(s).dom().finite(),
        forall|k: Seq<char>| #[trigger]
            entries_map(s).dom().contains(k) <==> exists|i: int| 0 <= i < s.len() && s[i].0@ == k,
    decreases s.len(),
{
    if s.len() > 0 {
        lemma_entries_map_dom(s.drop_last());
        let t = s.drop_last();
        assert forall|k: Seq<char>| #[trigger]
            entries_map(s).dom().contains(k) <==> exists|i: int| 0 <= i < s.len() && s[i].0@ == k by {
            if entries_map(s).dom().contains(k) && k != s.last().0@ {
                let i = choose|i: int| 0 <= i < t.len() && t[i].0@ == k;
                assert(s[i] == t[i]);
            }
            if exists|i: int| 0 <= i < s.len() && s[i].0@ == k {
                let i = choose|i: int| 0 <= i < s.len() && s[i].0@ == k;
                if i < t.len() {
                    assert(t[i] == s[i]);
                }
            }
        }
    }
}

/// With unique outputs, the map gives each output the numbers of its entry.
proof fn lemma_entries_map_at(s: Seq<(String, Vec<i32>)>, i: int)
    requires
        keys_unique(s),
        0 <= i < s.len(),
    ensures
        entries_map(s).dom().contains(s[i].0@),
        entries_map(s)[s[i].0@] == s[i].1@,
    decreases s.len(),
{
    if i < s.len() - 1 {
        assert(keys_unique(s.drop_last()));
        lemma_entries_map_at(s.drop_last(), i);
        assert(s[i] == s.drop_last()[i]);
    }
}

impl Mapping {
    /// The entries, in the order in which their outputs were first added.
    pub closed spec fn spec_entries(self) -> Seq<(String, Vec<i32>)> {
        self.entries@
    }

    /// Well formed: no output occurs twice.
    pub open spec fn wf(self) -> bool {
        keys_unique(self.spec_entries())
    }

    /// An empty mapping.
    pub fn new() -> (r: Mapping)
        ensures
            r.wf(),
            r.spec_entries().len() == 0,
            r@ == Map::<Seq<char>, Seq<i32>>::empty(),
    {
        Mapping { entries: Vec::new() }
    }

    /// The entries, in order.
    pub fn entries(&self) -> (r: &Vec<(String, Vec<i32>)>)
        ensures
            r@ == self.spec_entries(),
    {
        &self.entries
    }

    /// Sets the numbers of `output`, replacing any it had before.
    pub fn insert(&mut self, output: String, nums: Vec<i32>)
        requires
            old(self).wf(),
        ensures
            final(self).wf(),
            final(self)@ == old(self)@.insert(output@, nums@),
            match entry_index(old(self).spec_entries(), output@) {
                Some(i) => final(self).spec_entries() == old(self).spec_entries().update(
                    i,
                    (output, nums),
                ),
                None => final(self).spec_entries() == old(self).spec_entries().push((output, nums)),
            },
    {
        let ghost before = self.entries@;
        let mut i: usize = 0;
        while i < self.entries.len()
            invariant
                i <= self.entries.len(),
                self.entries@ == before,
                before == old(self).entries@,
                keys_unique(before),
                forall|j: int| 0 <= j < i ==> before[j].0@ != output@,
            decreases self.entries.len() - i,
        {
            if self.entries[i].0 == output {
                proof {
                    assert(entry_index(before, output@) == Some(i as int));
                }
                let ghost pair = (output, nums);
                self.entries.set(i, (output, nums));
                proof {
                    assert(self.entries@ == before.update(i as int, pair));
                    assert(entry_index(before, output@) == Some(i as int));
                    let after = self.entries@;
                    assert(keys_unique(after)) by {
                        assert forall|a: int, b: int| 0 <= a < b < after.len() implies after[a].0@
                            != after[b].0@ by {
                            if a != i && b != i {
                                assert(after[a] == before[a] && after[b] == before[b]);
                            }
                        }
                    }
                    lemma_entries_map_dom(before);
                    lemma_entries_map_dom(after);
                    assert(entries_map(after) =~= entries_map(before).insert(output@, nums@)) by {
                        assert forall|k: Seq<char>| #[trigger] entries_map(after).dom().contains(k)
                            <==> entries_map(before).insert(output@, nums@).dom().contains(k) by {
                            if entries_map(after).dom().contains(k) {
                                let j = choose|j: int| 0 <= j < after.len() && after[j].0@ == k;
                                if j != i {
                                    assert(after[j] == before[j]);
                                }
                            }
                            if entries_map(before).dom().contains(k) {
                                let j = choose|j: int| 0 <= j < before.len() && before[j].0@ == k;
                                if j != i {
                                    assert(after[j] == before[j]);
                                } else {
                                    assert(after[j].0@ == output@);
                                }
                            }
                            if k == output@ {
                                assert(after[i as int].0@ == k);
                            }
                        }
                        assert forall|k: Seq<char>| #[trigger] entries_map(after).dom().contains(k)
                            implies entries_map(after)[k] == entries_map(before).insert(
                            output@,
                            nums@,
                        )[k] by {
                            let j = choose|j: int| 0 <= j < after.len() && after[j].0@ == k;
                            lemma_entries_map_at(after, j);
                            if j != i {
                                assert(after[j] == before[j]);
                                lemma_entries_map_at(before, j);
                            }
                        }
                    }
                    assert(self@ == entries_map(after));
                }
                return;
            }
            i = i + 1;
        }
        proof {
            assert(entry_index(before, output@) is None);
        }
        self.entries.push((output, nums));
        proof {
            let after = self.entries@;
            assert(after.drop_last() =~= before);
            assert(keys_unique(after)) by {
                assert forall|a: int, b: int| 0 <= a < b < after.len() implies after[a].0@
                    != after[b].0@ by {
                    if b < before.len() {
                        assert(after[a] == before[a] && after[b] == before[b]);
                    } else {
                        assert(after[a] == before[a]);
                    }
                }
            }
        }
    }
}


impl Mapping {
    /// The numbers of `output`, if the mapping has an entry for it.
    pub fn get(&self, output: &str) -> (r: Option<&Vec<i32>>)
        requires
            self.wf(),
        ensures
            r is Some <==> self@.dom().contains(output@),
            r is Some ==> r->Some_0@ == self@[output@],
    {
        let mut i: usize = 0;
        proof {
            lemma_entries_map_dom(self.entries@);
        }
        while i < self.entries.len()
            invariant
                i <= self.entries.len(),
                keys_unique(self.entries@),
                forall|j: int| 0 <= j < i ==> self.entries@[j].0@ != output@,
            decreases self.entries.len() - i,
        {
            if crate::text::same_text(self.entries[i].0.as_str(), output) {
                proof {
                    lemma_entries_map_at(self.entries@, i as int);
                }
                return Some(&self.entries[i].1);
            }
            i = i + 1;
        }
        None
    }

    /// The index of the first entry whose numbers hold `num`.
    pub fn claimant(&self, num: i32) -> (r: Option<usize>)
        ensures
            r is Some <==> first_claimant(self.spec_entries(), num) is Some,
            r is Some ==> first_claimant(self.spec_entries(), num) == Some(r->Some_0 as int)
                && r->Some_0 < self.spec_entries().len(),
    {
        let mut i: usize = 0;
        while i < self.entries.len()
            invariant
                i <= self.entries.len(),
                forall|j: int| 0 <= j < i ==> !(#[trigger] self.entries@[j]).1@.contains(num),
            decreases self.entries.len() - i,
        {
            if contains_num(&self.entries[i].1, num) {
                proof {
                    assert(first_claimant(self.entries@, num) == Some(i as int));
                }
                return Some(i);
            }
            i = i + 1;
        }
        None
    }

    /// The output whose numbers hold `num`: the first such entry.
    pub fn output_for_workspace(&self, num: i32) -> (r: Option<String>)
        requires
            self.wf(),
        ensures
            match first_claimant(self.spec_entries(), num) {
                Some(i) => r is Some && r->Some_0 == self.spec_entries()[i].0,
                None => r is None,
            },
            r is Some ==> self@.dom().contains(r->Some_0@) && self@[r->Some_0@].contains(num),
            r is None <==> forall|o: Seq<char>| #[trigger] self@.dom().contains(o) ==> !self@[o].contains(num),
    {
        proof {
            lemma_entries_map_dom(self.entries@);
        }
        let mut i: usize = 0;
        while i < self.entries.len()
            invariant
                i <= self.entries.len(),
                keys_unique(self.entries@),
                forall|j: int| 0 <= j < i ==> !(#[trigger] self.entries@[j]).1@.contains(num),
            decreases self.entries.len() - i,
        {
            if contains_num(&self.entries[i].1, num) {
                proof {
                    assert(first_claimant(self.entries@, num) == Some(i as int));
                    lemma_entries_map_at(self.entries@, i as int);
                }
                return Some(self.entries[i].0.clone());
            }
            i = i + 1;
        }
        proof {
            assert forall|o: Seq<char>| #[trigger] self@.dom().contains(o) implies !self@[o].contains(num) by {
                let j = choose|j: int| 0 <= j < self.entries@.len() && self.entries@[j].0@ == o;
                lemma_entries_map_at(self.entries@, j);
                assert(!self.entries@[j].1@.contains(num));
            }
        }
        None
    }

    /// The JSON text of the mapping: an object with one member per output.
    pub fn to_json(&self) -> (r: Result<String, WsError>)
        ensures
            r is Ok,
            r->Ok_0@ == mapping_json(self@),
    {
        match json_of_mapping(self) {
            Ok(t) => Ok(t),
            Err(e) => Err(WsError::SerdeJson(e)),
        }
    }

    /// Reads a mapping from its JSON text. The text that `to_json` wrote for
    /// a mapping reads back as a mapping equal to it.
    pub fn from_json(text: &str) -> (r: Result<Mapping, WsError>)
        ensures
            r is Ok ==> r->Ok_0.wf(),
            r is Err ==> r->Err_0 is SerdeJson,
            forall|m: Map<Seq<char>, Seq<i32>>| #[trigger] mapping_json(m) == text@ && m.dom().finite()
                ==> r is Ok && r->Ok_0@ == m,
    {
        match mapping_of_json(text) {
            Ok(m) => Ok(m),
            Err(e) => Err(WsError::SerdeJson(e)),
        }
    }
}

/// Saving a mapping and loading the saved text gives back an equal mapping.
/// `text` is what `to_json` returns for `m`, and `loaded` any result that
/// `from_json` may return for `text`.
pub proof fn lemma_save_load_round_trip(
    m: Mapping,
    text: Seq<char>,
    loaded: Result<Mapping, WsError>,
)
    requires
        text == mapping_json(m@),
        forall|m2: Map<Seq<char>, Seq<i32>>| #[trigger] mapping_json(m2) == text
            && m2.dom().finite() ==> loaded is Ok && loaded->Ok_0@ == m2,
    ensures
        loaded is Ok,
        loaded->Ok_0@ == m@,
{
    lemma_entries_map_dom(m.spec_entries());
}

/// Mapping an output a second time replaces its numbers: nothing of the
/// first set of numbers stays.
pub proof fn lemma_remap_replaces(
    m: Map<Seq<char>, Seq<i32>>,
    output: Seq<char>,
    first: Seq<i32>,
    second: Seq<i32>,
)
    ensures
        m.insert(output, first).insert(output, second) == m.insert(output, second),
{
    assert(m.insert(output, first).insert(output, second) =~= m.insert(output, second));
}

/// Whether `v` holds `num`.
pub fn contains_num(v: &Vec<i32>, num: i32) -> (r: bool)
    ensures
        r == v@.contains(num),
{
    let mut i: usize = 0;
    while i < v.len()
        invariant
            i <= v.len(),
            forall|j: int| 0 <= j < i ==> v@[j] != num,
        decreases v.len() - i,
    {
        if v[i] == num {
            return true;
        }
        i = i + 1;
    }
    false
}

/// The text that `serde_json` writes for a map from output names to workspace numbers.
pub uninterp spec fn mapping_json(m: Map<Seq<char>, Seq<i32>>) -> Seq<char>;

/// Relies on `serde_json::to_string` of a `BTreeMap` built from the entries:
/// a `BTreeMap` is walked in key order, so the text depends on the map alone.
/// It cannot fail: `to_string` fails only when a `Serialize` impl fails or a
/// map key is not a string, and the keys here are strings.
#[verifier::external_body]
fn json_of_mapping(m: &Mapping) -> (r: Result<String, serde_json::Error>)
    ensures
        r is Ok,
        r->Ok_0@ == mapping_json(m@),
{
    let map: BTreeMap<&String, &Vec<i32>> = m.entries.iter().map(|e| (&e.0, &e.1)).collect();
    serde_json::to_string(&map)
}

/// Relies on `serde_json::from_str` into a `BTreeMap<String, Vec<i32>>`: the
/// text that `serde_json::to_string` wrote for a map reads back as that map,
/// and the keys of a `BTreeMap` are unique.
#[verifier::external_body]
fn mapping_of_json(text: &str) -> (r: Result<Mapping, serde_json::Error>)
    ensures
        r is Ok ==> r->Ok_0.wf(),
        forall|m: Map<Seq<char>, Seq<i32>>| #[trigger] mapping_json(m) == text@ && m.dom().finite()
            ==> r is Ok && r->Ok_0@ == m,
{
    let map: BTreeMap<String, Vec<i32>> = serde_json::from_str(text)?;
    Ok(Mapping { entries: map.into_iter().collect() })
}

} // verus!
