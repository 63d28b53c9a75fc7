//! Request headers: an ordered list of name and value pairs in which no name
//! occurs twice, kept in an `IndexMap`.

use indexmap::IndexMap;
use vstd::prelude::*;

verus! {

/// `indexmap::IndexMap`: a map that hands out its pairs in the order in
/// which their keys were first put in. Nothing is known of what is inside
/// but what the functions below say.
#[verifier::external_type_specification]
#[verifier::external_body]
#[verifier::reject_recursive_types(K)]
#[verifier::reject_recursive_types(V)]
#[verifier::reject_recursive_types(S)]
pub struct ExIndexMap<K, V, S>(IndexMap<K, V, S>);

/// The name and value pairs that a map holds, in the order in which it hands
/// them out.
pub uninterp spec fn header_entries(map: IndexMap<String, String>) -> Seq<(Seq<char>, Seq<char>)>;

/// Whether no name occurs twice among `entries`.
pub open spec fn distinct_names(entries: Seq<(Seq<char>, Seq<char>)>) -> bool {
    forall|i: int, j: int|
        0 <= i < j < entries.len() ==> (#[trigger] entries[i]).0 != (#[trigger] entries[j]).0
}

/// Whether `entries` holds a pair named `name`.
pub open spec fn has_name(entries: Seq<(Seq<char>, Seq<char>)>, name: Seq<char>) -> bool {
    exists|i: int| 0 <= i < entries.len() && (#[trigger] entries[i]).0 == name
}

/// The position of a pair named `name` in `entries`.
pub open spec fn position_of(entries: Seq<(Seq<char>, Seq<char>)>, name: Seq<char>) -> int {
    choose|i: int| 0 <= i < entries.len() && (#[trigger] entries[i]).0 == name
}

/// `entries` after `name` was set to `value`: a pair of that name keeps its
/// place and takes the new value, and a new name goes last.
pub open spec fn with_entry(
    entries: Seq<(Seq<char>, Seq<char>)>,
    name: Seq<char>,
    value: Seq<char>,
) -> Seq<(Seq<char>, Seq<char>)> {
    if has_name(entries, name) {
        entries.update(position_of(entries, name), (name, value))
    } else {
        entries.push((name, value))
    }
}

/// Setting a name keeps the names distinct.
pub proof fn lemma_with_entry_distinct(
    entries: Seq<(Seq<char>, Seq<char>)>,
    name: Seq<char>,
    value: Seq<char>,
)
    requires
        distinct_names(entries),
    ensures
        distinct_names(with_entry(entries, name, value)),
        has_name(with_entry(entries, name, value), name),
{
    let after = with_entry(entries, name, value);
    if has_name(entries, name) {
        let p = position_of(entries, name);
        assert forall|i: int, j: int| 0 <= i < j < after.len() implies (#[trigger] after[i]).0 != (
        #[trigger] after[j]).0 by {
            assert(after[i].0 == entries[i].0);
            assert(after[j].0 == entries[j].0);
        }
        assert(after[p].0 == name);
    } else {
        assert forall|i: int, j: int| 0 <= i < j < after.len() implies (#[trigger] after[i]).0 != (
        #[trigger] after[j]).0 by {
            if j < entries.len() {
                assert(after[i] == entries[i]);
                assert(after[j] == entries[j]);
            } else {
                assert(after[i] == entries[i]);
            }
        }
        assert(after[entries.len() as int].0 == name);
    }
}

/// `IndexMap::new`: the map that holds nothing.
#[verifier::external_body]
fn map_new() -> (map: IndexMap<String, String>)
    ensures
        header_entries(map) == Seq::<(Seq<char>, Seq<char>)>::empty(),
{
    IndexMap::new()
}

/// `IndexMap::len`: the number of pairs in the map.
#[verifier::external_body]
fn map_len(map: &IndexMap<String, String>) -> (n: usize)
    ensures
        n == header_entries(*map).len(),
{
    map.len()
}

/// `IndexMap::get_index`: the pair at position `index`, and nothing from the
/// length of the map on.
#[verifier::external_body]
fn map_get_index(map: &IndexMap<String, String>, index: usize) -> (pair: Option<
    (&String, &String),
>)
    ensures
        match pair {
            Some((name, value)) => index < header_entries(*map).len() && (name@, value@)
                == header_entries(*map)[index as int],
            None => index >= header_entries(*map).len(),
        },
{
    map.get_index(index)
}

/// `IndexMap::insert`: a key that the map holds keeps its place and takes
/// the new value; a new key goes last in order.
#[verifier::external_body]
fn map_insert(map: &mut IndexMap<String, String>, name: String, value: String)
    requires
        distinct_names(header_entries(*old(map))),
    ensures
        header_entries(*final(map)) == with_entry(header_entries(*old(map)), name@, value@),
{
    map.insert(name, value);
}

/// `IndexMap::clone`: a map with the same pairs in the same order.
#[verifier::external_body]
fn map_clone(map: &IndexMap<String, String>) -> (copy: IndexMap<String, String>)
    ensures
        header_entries(copy) == header_entries(*map),
{
    map.clone()
}

/// An ordered list of headers.
#[derive(Debug)]
pub struct Headers {
    pub(crate) map: IndexMap<String, String>,
}

impl View for Headers {
    type V = Seq<(Seq<char>, Seq<char>)>;

    open(crate) spec fn view(&self) -> Seq<(Seq<char>, Seq<char>)> {
        header_entries(self.map)
    }
}

impl Headers {
    /// What holds of every list of headers: no name occurs twice.
    #[verifier::type_invariant]
    pub open spec fn wf(&self) -> bool {
        distinct_names(self@)
    }

    /// No headers.
    pub fn new() -> (h: Headers)
        ensures
            h@ == Seq::<(Seq<char>, Seq<char>)>::empty(),
    {
        Headers { map: map_new() }
    }

    /// The number of headers.
    pub fn len(&self) -> (n: usize)
        ensures
            n == self@.len(),
    {
        map_len(&self.map)
    }

    /// The name and value at position `index`, or `None` from the length on.
    pub fn get_index(&self, index: usize) -> (pair: Option<(&String, &String)>)
        ensures
            match pair {
                Some((name, value)) => index < self@.len() && (name@, value@) == self@[index as int],
                None => index >= self@.len(),
            },
    {
        map_get_index(&self.map, index)
    }

    /// Sets the header `name` to `value`. A header of that name keeps its
    /// place; a new one goes last.
    pub fn insert(&mut self, name: String, value: String)
        ensures
            final(self)@ == with_entry(old(self)@, name@, value@),
    {
        proof {
            use_type_invariant(&*self);
            lemma_with_entry_distinct(self@, name@, value@);
        }
        let mut map = map_new();
        std::mem::swap(&mut map, &mut self.map);
        map_insert(&mut map, name, value);
        self.map = map;
    }

    /// The value of the header `name`, if there is one.
    pub fn get(&self, name: &String) -> (value: Option<&String>)
        ensures
            match value {
                Some(v) => exists|i: int|
                    0 <= i < self@.len() && #[trigger] self@[i] == (name@, v@),
                None => !has_name(self@, name@),
            },
    {
        let n = self.len();
        let mut i: usize = 0;
        while i < n
            invariant
                n == self@.len(),
                i <= n,
                forall|k: int| 0 <= k < i ==> (#[trigger] self@[k]).0 != name@,
            decreases n - i,
        {
            if let Some((k, v)) = self.get_index(i) {
                if *k == *name {
                    assert(self@[i as int] == (name@, v@));
                    return Some(v);
                }
            }
            i += 1;
        }
        None
    }
}

impl Clone for Headers {
    fn clone(&self) -> (r: Self)
        ensures
            r@ == self@,
    {
        proof {
            use_type_invariant(self);
        }
        Headers { map: map_clone(&self.map) }
    }
}

} // verus!
