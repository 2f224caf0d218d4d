//! Names of nodes, feeds and tokens: their alphabetical order, and maps that keep their keys in it.

use vstd::prelude::*;

pub mod laws;

verus! {

broadcast use vstd::seq_lib::group_seq_properties;

/// Whether `a` comes before `b` alphabetically: at the first place where they differ it holds the
/// smaller character, or it is a proper prefix.
pub open spec fn precedes(a: Seq<char>, b: Seq<char>) -> bool
    decreases a.len(),
{
    if b.len() == 0 {
        false
    } else if a.len() == 0 {
        true
    } else if a[0] == b[0] {
        precedes(a.drop_first(), b.drop_first())
    } else {
        a[0] < b[0]
    }
}

/// No name comes before itself.
pub proof fn lemma_precedes_irreflexive(a: Seq<char>)
    ensures
        !precedes(a, a),
    decreases a.len(),
{
    if a.len() > 0 {
        lemma_precedes_irreflexive(a.drop_first());
    }
}

/// Of two different names, one comes before the other.
pub proof fn lemma_precedes_total(a: Seq<char>, b: Seq<char>)
    ensures
        a == b || precedes(a, b) || precedes(b, a),
    decreases a.len(),
{
    if a.len() > 0 && b.len() > 0 && a[0] == b[0] {
        lemma_precedes_total(a.drop_first(), b.drop_first());
        if a.drop_first() == b.drop_first() {
            assert(a =~= seq![a[0]] + a.drop_first());
            assert(b =~= seq![b[0]] + b.drop_first());
        }
    } else if a.len() == 0 && b.len() == 0 {
        assert(a =~= b);
    }
}

/// Alphabetical order is transitive.
pub proof fn lemma_precedes_transitive(a: Seq<char>, b: Seq<char>, c: Seq<char>)
    requires
        precedes(a, b),
        precedes(b, c),
    ensures
        precedes(a, c),
    decreases a.len(),
{
    if a.len() > 0 && b.len() > 0 && c.len() > 0 && a[0] == b[0] && b[0] == c[0] {
        lemma_precedes_transitive(a.drop_first(), b.drop_first(), c.drop_first());
    }
}

/// `str`'s `<` of the standard library, which orders strings as the positions of their characters
/// in the code charts do.
#[verifier::external_body]
pub(crate) fn str_precedes(a: &str, b: &str) -> (r: bool)
    ensures
        r == precedes(a@, b@),
{
    a < b
}

/// Whether two strings hold the same characters.
pub fn str_equal(a: &str, b: &str) -> (r: bool)
    ensures
        r == (a@ == b@),
{
    a.to_owned() == b.to_owned()
}

/// A value that is known by its name.
pub trait Named: Sized {
    /// The name.
    spec fn name(&self) -> Seq<char>;

    /// The name as a string.
    fn as_name(&self) -> (r: &str)
        ensures
            r@ == self.name(),
    ;
}

impl Named for String {
    open spec fn name(&self) -> Seq<char> {
        self@
    }

    fn as_name(&self) -> (r: &str) {
        self.as_str()
    }
}

/// The names of `keys` are in strictly ascending order.
pub open spec fn ascending<K: Named>(keys: Seq<K>) -> bool {
    forall|i: int, j: int| 0 <= i < j < keys.len() ==> precedes(#[trigger] keys[i].name(), #[trigger] keys[j].name())
}

/// The place of `name` among `keys`.
pub open spec fn position<K: Named>(keys: Seq<K>, name: Seq<char>) -> int {
    choose|i: int| 0 <= i < keys.len() && (#[trigger] keys[i]).name() == name
}

/// Whether some key has this name.
pub open spec fn has_name<K: Named>(keys: Seq<K>, name: Seq<char>) -> bool {
    exists|i: int| 0 <= i < keys.len() && (#[trigger] keys[i]).name() == name
}

/// In an ascending sequence a name occurs once.
pub proof fn lemma_ascending_unique<K: Named>(keys: Seq<K>, i: int, j: int)
    requires
        ascending(keys),
        0 <= i < keys.len(),
        0 <= j < keys.len(),
        keys[i].name() == keys[j].name(),
    ensures
        i == j,
{
    lemma_precedes_irreflexive(keys[i].name());
    if i < j {
        assert(precedes(keys[i].name(), keys[j].name()));
    } else if j < i {
        assert(precedes(keys[j].name(), keys[i].name()));
    }
}

/// The names of `keys`, in their order.
pub open spec fn names_of<K: Named>(keys: Seq<K>) -> Seq<Seq<char>> {
    Seq::new(keys.len(), |i: int| keys[i].name())
}

/// As many names as keys occur in an ascending sequence.
pub proof fn lemma_names_len<K: Named>(keys: Seq<K>)
    requires
        ascending(keys),
    ensures
        names_of(keys).to_set().finite(),
        names_of(keys).to_set().len() == keys.len(),
        forall|name: Seq<char>| has_name(keys, name) <==> #[trigger] names_of(keys).to_set().contains(name),
{
    let names = names_of(keys);
    assert forall|i: int, j: int| 0 <= i < names.len() && 0 <= j < names.len() && i != j implies names[i] != names[j] by {
        if names[i] == names[j] {
            lemma_ascending_unique(keys, i, j);
        }
    }
    assert(names.no_duplicates());
    names.unique_seq_to_set();
    assert forall|name: Seq<char>| has_name(keys, name) implies #[trigger] names.to_set().contains(name) by {
        let i = position(keys, name);
        assert(names[i] == name);
    }
    assert forall|name: Seq<char>| #[trigger] names.to_set().contains(name) implies has_name(keys, name) by {
        let i = choose|i: int| 0 <= i < names.len() && names[i] == name;
        assert(keys[i].name() == name);
    }
}

/// What an ascending sequence of keys with their values holds, by name.
pub open spec fn map_of<K: Named, V>(entries: Seq<(K, V)>) -> Map<Seq<char>, V> {
    Map::new(
        |name: Seq<char>| has_name(keys_of(entries), name),
        |name: Seq<char>| entries[position(keys_of(entries), name)].1,
    )
}

/// The keys of these entries.
pub open spec fn keys_of<K, V>(entries: Seq<(K, V)>) -> Seq<K> {
    Seq::new(entries.len(), |i: int| entries[i].0)
}

/// The value in the `i`th entry is what the map holds under its name.
pub proof fn lemma_entry<K: Named, V>(entries: Seq<(K, V)>, i: int)
    requires
        ascending(keys_of(entries)),
        0 <= i < entries.len(),
    ensures
        map_of(entries).contains_key(entries[i].0.name()),
        map_of(entries)[entries[i].0.name()] == entries[i].1,
{
    let name = entries[i].0.name();
    let keys = keys_of(entries);
    assert(keys[i].name() == name);
    assert(has_name(keys, name));
    lemma_ascending_unique(keys, i, position(keys, name));
}

/// Every name that the map holds is in one of its entries.
pub proof fn lemma_place<K: Named, V>(entries: Seq<(K, V)>, name: Seq<char>) -> (at: int)
    requires
        map_of(entries).contains_key(name),
    ensures
        0 <= at < entries.len(),
        entries[at].0.name() == name,
{
    let keys = keys_of(entries);
    let at = position(keys, name);
    assert(keys[at].name() == name);
    at
}

/// A map whose keys stand in alphabetical order of their names, each name once.
#[derive(Debug)]
pub struct NameMap<K: Named, V> {
    entries: Vec<(K, V)>,
}

impl<K: Named, V> View for NameMap<K, V> {
    type V = Map<Seq<char>, V>;

    /// What the map holds, by name.
    open spec fn view(&self) -> Map<Seq<char>, V> {
        map_of(self.listed())
    }
}

impl<K: Named, V> NameMap<K, V> {
    /// The keys ascend.
    #[verifier::type_invariant]
    pub closed spec fn wf(&self) -> bool {
        ascending(keys_of(self.entries@))
    }

    /// The keys and values in alphabetical order.
    pub closed spec fn listed(&self) -> Seq<(K, V)> {
        self.entries@
    }

    pub fn new() -> (r: Self)
        ensures
            r.listed().len() == 0,
            r@ == Map::<Seq<char>, V>::empty(),
    {
        let r = NameMap { entries: Vec::new() };
        assert(r@ =~= Map::<Seq<char>, V>::empty());
        r
    }

    /// The keys and values in alphabetical order.
    pub fn entries(&self) -> (r: &Vec<(K, V)>)
        ensures
            r@ == self.listed(),
            ascending(keys_of(r@)),
    {
        proof {
            use_type_invariant(self);
        }
        &self.entries
    }

    /// The keys and values in alphabetical order.
    pub fn into_entries(self) -> (r: Vec<(K, V)>)
        ensures
            r@ == self.listed(),
            ascending(keys_of(r@)),
    {
        proof {
            use_type_invariant(&self);
        }
        self.entries
    }

    /// Where `name` stands (`Ok`), or where it would have to be put (`Err`).
    fn find(&self, name: &str) -> (r: Result<usize, usize>)
        ensures
            self.wf(),
            match r {
                Ok(i) => i < self.listed().len() && self.listed()[i as int].0.name() == name@,
                Err(i) => {
                    &&& i <= self.listed().len()
                    &&& forall|j: int| 0 <= j < i ==> precedes((#[trigger] self.listed()[j]).0.name(), name@)
                    &&& forall|j: int| i <= j < self.listed().len() ==> precedes(name@, (#[trigger] self.listed()[j]).0.name())
                },
            },
            r is Ok <==> self@.contains_key(name@),
            r is Ok ==> self@[name@] == self.listed()[r->Ok_0 as int].1,
    {
        proof {
            use_type_invariant(self);
        }
        let ghost keys = keys_of(self.entries@);
        let mut i: usize = 0;
        while i < self.entries.len()
            invariant
                ascending(keys),
                keys == keys_of(self.entries@),
                i <= self.entries.len(),
                forall|j: int| 0 <= j < i ==> precedes((#[trigger] self.entries@[j]).0.name(), name@),
            decreases self.entries.len() - i,
        {
            if str_precedes(self.entries[i].0.as_name(), name) {
                i += 1;
            } else {
                let same = str_equal(self.entries[i].0.as_name(), name);
                proof {
                    lemma_precedes_total(keys[i as int].name(), name@);
                    assert forall|j: int| i <= j < self.entries.len() && !same implies precedes(
                        name@,
                        (#[trigger] self.entries@[j]).0.name(),
                    ) by {
                        if j > i {
                            assert(precedes(keys[i as int].name(), keys[j].name()));
                            lemma_precedes_transitive(name@, keys[i as int].name(), keys[j].name());
                        }
                    }
                }
                if same {
                    proof {
                        lemma_entry(self.entries@, i as int);
                    }
                    return Ok(i);
                }
                proof {
                    lemma_absent(self.entries@, name@, i as int);
                }
                return Err(i);
            }
        }
        proof {
            lemma_absent(self.entries@, name@, i as int);
        }
        Err(i)
    }

    /// The value under `name`, if there is one.
    pub fn get(&self, name: &str) -> (r: Option<&V>)
        ensures
            r is Some <==> self@.contains_key(name@),
            r is Some ==> *r->0 == self@[name@],
    {
        match self.find(name) {
            Ok(i) => Some(&self.entries[i].1),
            Err(_) => None,
        }
    }

    /// How many values there are.
    pub fn len(&self) -> (r: usize)
        ensures
            self@.dom().finite(),
            r == self@.dom().len(),
    {
        proof {
            use_type_invariant(self);
            let keys = keys_of(self.entries@);
            lemma_names_len(keys);
            assert(self@.dom() =~= names_of(keys).to_set());
        }
        self.entries.len()
    }

    pub fn contains(&self, name: &str) -> (r: bool)
        ensures
            r == self@.contains_key(name@),
    {
        self.get(name).is_some()
    }

    /// Puts `value` under `key`, in place of what was there.
    pub fn insert(&mut self, key: K, value: V)
        ensures
            final(self)@ == old(self)@.insert(key.name(), value),
    {
        let ghost before = self.entries@;
        let place = self.find(key.as_name());
        let mut entries: Vec<(K, V)> = Vec::new();
        core::mem::swap(&mut self.entries, &mut entries);
        match place {
            Ok(i) => {
                entries.set(i, (key, value));
                proof {
                    lemma_replaced(before, entries@, i as int);
                }
            },
            Err(i) => {
                entries.insert(i, (key, value));
                proof {
                    lemma_inserted(before, entries@, i as int);
                }
            },
        }
        self.entries = entries;
    }

    /// Takes out what stands under `name`.
    pub fn remove(&mut self, name: &str) -> (r: Option<V>)
        ensures
            final(self)@ == old(self)@.remove(name@),
            r is Some <==> old(self)@.contains_key(name@),
            r is Some ==> r->0 == old(self)@[name@],
    {
        let ghost before = *self;
        match self.find(name) {
            Ok(i) => {
                let mut entries: Vec<(K, V)> = Vec::new();
                core::mem::swap(&mut self.entries, &mut entries);
                let (_, value) = entries.remove(i);
                proof {
                    lemma_removed(before.entries@, entries@, i as int);
                }
                self.entries = entries;
                Some(value)
            },
            Err(_) => {
                assert(self@ =~= before@.remove(name@));
                None
            },
        }
    }
}

proof fn lemma_absent<K: Named, V>(entries: Seq<(K, V)>, name: Seq<char>, at: int)
    requires
        forall|j: int| 0 <= j < at ==> precedes((#[trigger] entries[j]).0.name(), name),
        forall|j: int| at <= j < entries.len() ==> precedes(name, (#[trigger] entries[j]).0.name()),
    ensures
        !map_of(entries).contains_key(name),
{
    lemma_precedes_irreflexive(name);
    if map_of(entries).contains_key(name) {
        let j = lemma_place(entries, name);
    }
}

proof fn lemma_replaced<K: Named, V>(before: Seq<(K, V)>, after: Seq<(K, V)>, at: int)
    requires
        ascending(keys_of(before)),
        0 <= at < before.len(),
        after == before.update(at, after[at]),
        after[at].0.name() == before[at].0.name(),
    ensures
        ascending(keys_of(after)),
        map_of(after) == map_of(before).insert(after[at].0.name(), after[at].1),
{
    let name = after[at].0.name();
    assert forall|i: int| 0 <= i < after.len() implies #[trigger] keys_of(after)[i].name() == keys_of(before)[i].name() by {}
    assert forall|i: int, j: int| 0 <= i < j < after.len() implies precedes(
        #[trigger] keys_of(after)[i].name(),
        #[trigger] keys_of(after)[j].name(),
    ) by {
        assert(precedes(keys_of(before)[i].name(), keys_of(before)[j].name()));
    }
    assert forall|n: Seq<char>| map_of(after).contains_key(n) == map_of(before).insert(name, after[at].1).contains_key(n) by {
        if map_of(after).contains_key(n) {
            let p = lemma_place(after, n);
            lemma_entry(before, p);
        }
        if map_of(before).contains_key(n) {
            let p = lemma_place(before, n);
            lemma_entry(after, p);
        }
        lemma_entry(after, at);
    }
    assert forall|n: Seq<char>| map_of(after).contains_key(n) implies map_of(after)[n] == map_of(before).insert(
        name,
        after[at].1,
    )[n] by {
        let p = lemma_place(after, n);
        lemma_entry(after, p);
        lemma_entry(before, p);
        lemma_entry(after, at);
    }
    assert(map_of(after) =~= map_of(before).insert(name, after[at].1));
}

proof fn lemma_inserted<K: Named, V>(before: Seq<(K, V)>, after: Seq<(K, V)>, at: int)
    requires
        ascending(keys_of(before)),
        0 <= at <= before.len(),
        after == before.insert(at, after[at]),
        after.len() == before.len() + 1,
        forall|j: int| 0 <= j < at ==> precedes((#[trigger] before[j]).0.name(), after[at].0.name()),
        forall|j: int| at <= j < before.len() ==> precedes(after[at].0.name(), (#[trigger] before[j]).0.name()),
    ensures
        ascending(keys_of(after)),
        map_of(after) == map_of(before).insert(after[at].0.name(), after[at].1),
{
    let name = after[at].0.name();
    assert forall|i: int, j: int| 0 <= i < j < after.len() implies precedes(
        #[trigger] keys_of(after)[i].name(),
        #[trigger] keys_of(after)[j].name(),
    ) by {
        let x = if i < at { i } else { i - 1 };
        let y = if j < at { j } else { j - 1 };
        if i != at {
            assert(after[i] == before[x]);
        }
        if j != at {
            assert(after[j] == before[y]);
        }
        if i != at && j != at {
            assert(precedes(keys_of(before)[x].name(), keys_of(before)[y].name()));
        }
    }
    lemma_entry(after, at);
    assert forall|n: Seq<char>| map_of(after).contains_key(n) == map_of(before).insert(name, after[at].1).contains_key(n) by {
        if map_of(after).contains_key(n) && n != name {
            let p = lemma_place(after, n);
            let x = if p < at { p } else { p - 1 };
            assert(before[x] == after[p]);
            lemma_entry(before, x);
        }
        if map_of(before).contains_key(n) {
            let p = lemma_place(before, n);
            let x = if p < at { p } else { p + 1 };
            assert(after[x] == before[p]);
            lemma_entry(after, x);
        }
    }
    assert forall|n: Seq<char>| map_of(after).contains_key(n) implies map_of(after)[n] == map_of(before).insert(
        name,
        after[at].1,
    )[n] by {
        let p = lemma_place(after, n);
        lemma_entry(after, p);
        if n != name {
            let x = if p < at { p } else { p - 1 };
            assert(before[x] == after[p]);
            lemma_entry(before, x);
        }
    }
    assert(map_of(after) =~= map_of(before).insert(name, after[at].1));
}

proof fn lemma_removed<K: Named, V>(before: Seq<(K, V)>, after: Seq<(K, V)>, at: int)
    requires
        ascending(keys_of(before)),
        0 <= at < before.len(),
        after == before.remove(at),
    ensures
        ascending(keys_of(after)),
        map_of(after) == map_of(before).remove(before[at].0.name()),
{
    let name = before[at].0.name();
    assert forall|i: int, j: int| 0 <= i < j < after.len() implies precedes(
        #[trigger] keys_of(after)[i].name(),
        #[trigger] keys_of(after)[j].name(),
    ) by {
        let x = if i < at { i } else { i + 1 };
        let y = if j < at { j } else { j + 1 };
        assert(after[i] == before[x]);
        assert(after[j] == before[y]);
        assert(precedes(keys_of(before)[x].name(), keys_of(before)[y].name()));
    }
    assert forall|n: Seq<char>| map_of(after).contains_key(n) == map_of(before).remove(name).contains_key(n) by {
        if map_of(after).contains_key(n) {
            let p = lemma_place(after, n);
            let x = if p < at { p } else { p + 1 };
            assert(before[x] == after[p]);
            lemma_entry(before, x);
            if n == name {
                assert(keys_of(before)[x].name() == keys_of(before)[at].name());
                lemma_ascending_unique(keys_of(before), x, at);
            }
        }
        if map_of(before).contains_key(n) && n != name {
            let p = lemma_place(before, n);
            let x = if p < at { p } else { p - 1 };
            assert(after[x] == before[p]);
            lemma_entry(after, x);
        }
    }
    assert forall|n: Seq<char>| map_of(after).contains_key(n) implies map_of(after)[n] == map_of(before).remove(name)[n] by {
        let p = lemma_place(after, n);
        lemma_entry(after, p);
        let x = if p < at { p } else { p + 1 };
        assert(before[x] == after[p]);
        lemma_entry(before, x);
    }
    assert(map_of(after) =~= map_of(before).remove(name));
}

/// The last place at which a value of this name stands.
pub open spec fn is_last<K: Named>(values: Seq<K>, name: Seq<char>, at: int) -> bool {
    &&& 0 <= at < values.len()
    &&& values[at].name() == name
    &&& forall|j: int| at < j < values.len() ==> (#[trigger] values[j]).name() != name
}

/// The first place at which a value of this name stands.
pub open spec fn is_first<K: Named>(values: Seq<K>, name: Seq<char>, at: int) -> bool {
    &&& 0 <= at < values.len()
    &&& values[at].name() == name
    &&& forall|j: int| 0 <= j < at ==> (#[trigger] values[j]).name() != name
}

/// The first value of a name.
pub open spec fn first_named<K: Named>(values: Seq<K>, name: Seq<char>) -> K {
    values[choose|at: int| is_first(values, name, at)]
}

/// Finds the first value of a name.
pub fn find_named<'a, K: Named>(values: &'a [K], name: &str) -> (r: Option<&'a K>)
    ensures
        r is Some <==> has_name(values@, name@),
        r is Some ==> *r->0 == first_named(values@, name@) && (r->0).name() == name@,
{
    let mut i: usize = 0;
    while i < values.len()
        invariant
            i <= values.len(),
            forall|j: int| 0 <= j < i ==> (#[trigger] values@[j]).name() != name@,
        decreases values.len() - i,
    {
        if str_equal(values[i].as_name(), name) {
            proof {
                let chosen = choose|at: int| is_first(values@, name@, at);
                assert(is_first(values@, name@, i as int));
                assert(is_first(values@, name@, chosen));
                if chosen < i {
                    assert(values@[chosen].name() != name@);
                } else if chosen > i {
                    assert(values@[i as int].name() != name@);
                }
            }
            return Some(&values[i]);
        }
        i += 1;
    }
    None
}

/// A list that grows gains one name.
pub proof fn lemma_pushed_name<K: Named>(keys: Seq<K>, key: K, name: Seq<char>)
    ensures
        has_name(keys.push(key), name) <==> has_name(keys, name) || key.name() == name,
{
    let longer = keys.push(key);
    if has_name(keys, name) {
        let i = choose|i: int| 0 <= i < keys.len() && (#[trigger] keys[i]).name() == name;
        assert(longer[i].name() == name);
    }
    if key.name() == name {
        assert(longer[keys.len() as int].name() == name);
    }
    if has_name(longer, name) {
        let i = choose|i: int| 0 <= i < longer.len() && (#[trigger] longer[i]).name() == name;
        if i < keys.len() {
            assert(keys[i].name() == name);
        }
    }
}

/// For each name, the last place at which a value of that name stands.
pub fn index_by_name<K: Named>(values: &[K]) -> (r: NameMap<String, usize>)
    ensures
        forall|name: Seq<char>| #[trigger] r@.contains_key(name) <==> has_name(values@, name),
        forall|name: Seq<char>| #[trigger] r@.contains_key(name) ==> is_last(values@, name, r@[name] as int),
{
    let mut index: NameMap<String, usize> = NameMap::new();
    let mut i: usize = 0;
    while i < values.len()
        invariant
            i <= values.len(),
            forall|name: Seq<char>| #[trigger] index@.contains_key(name) <==> has_name(values@.take(i as int), name),
            forall|name: Seq<char>| #[trigger]
                index@.contains_key(name) ==> is_last(values@.take(i as int), name, index@[name] as int),
        decreases values.len() - i,
    {
        let ghost before = index@;
        let ghost front = values@.take(i as int);
        index.insert(values[i].as_name().to_owned(), i);
        i += 1;
        proof {
            let now = values@.take(i as int);
            let new = values@[i - 1].name();
            assert(now =~= front.push(values@[i - 1]));
            assert forall|name: Seq<char>| #[trigger] index@.contains_key(name) <==> has_name(now, name) by {
                if has_name(front, name) {
                    let k = position(front, name);
                    assert(now[k].name() == name);
                }
                if has_name(now, name) && name != new {
                    let k = position(now, name);
                    assert(front[k].name() == name);
                }
                if name == new {
                    assert(now[i - 1].name() == name);
                }
            }
            assert forall|name: Seq<char>| #[trigger] index@.contains_key(name) implies is_last(
                now,
                name,
                index@[name] as int,
            ) by {
                if name != new {
                    assert(before.contains_key(name));
                    assert(now[index@[name] as int] == front[index@[name] as int]);
                    assert forall|j: int| index@[name] < j < now.len() implies (#[trigger] now[j]).name() != name by {
                        if j < front.len() {
                            assert(now[j] == front[j]);
                        }
                    }
                }
            }
        }
    }
    assert(values@.take(i as int) =~= values@);
    index
}

/// These names are in strictly ascending order.
pub open spec fn names_ascend(names: Seq<Seq<char>>) -> bool {
    forall|i: int, j: int| 0 <= i < j < names.len() ==> precedes(#[trigger] names[i], #[trigger] names[j])
}

/// `names` and `values` list what the map holds, in alphabetical order.
pub open spec fn lists_map<V>(map: Map<Seq<char>, V>, names: Seq<Seq<char>>, values: Seq<V>) -> bool {
    &&& names.len() == values.len()
    &&& names_ascend(names)
    &&& forall|name: Seq<char>| #[trigger] map.contains_key(name) <==> names.contains(name)
    &&& forall|i: int| 0 <= i < names.len() ==> map[#[trigger] names[i]] == values[i]
}

/// What the map holds, in alphabetical order of the names.
pub open spec fn alphabetical<V>(map: Map<Seq<char>, V>) -> Seq<V> {
    choose|values: Seq<V>| is_listing(map, values)
}

/// `values` list what the map holds, in alphabetical order of some names.
pub open spec fn is_listing<V>(map: Map<Seq<char>, V>, values: Seq<V>) -> bool {
    exists|names: Seq<Seq<char>>| lists_map(map, names, values)
}

/// Two ascending lists of the same names are the same.
pub proof fn lemma_same_names(a: Seq<Seq<char>>, b: Seq<Seq<char>>)
    requires
        names_ascend(a),
        names_ascend(b),
        forall|name: Seq<char>| a.contains(name) <==> b.contains(name),
    ensures
        a == b,
    decreases a.len(),
{
    if a.len() == 0 {
        if b.len() > 0 {
            assert(b.contains(b[0]));
        }
        assert(a =~= b);
    } else {
        assert(a.contains(a.last()));
        let k = choose|k: int| 0 <= k < b.len() && b[k] == a.last();
        assert(b.contains(b.last()));
        let m = choose|m: int| 0 <= m < a.len() && a[m] == b.last();
        if k < b.len() - 1 {
            assert(precedes(b[k], b[b.len() - 1]));
            if m < a.len() - 1 {
                assert(precedes(a[m], a[a.len() - 1]));
                lemma_precedes_transitive(a.last(), b.last(), a.last());
            }
            lemma_precedes_irreflexive(a.last());
        }
        assert(a.last() == b.last());
        let x = a.drop_last();
        let y = b.drop_last();
        assert forall|name: Seq<char>| x.contains(name) <==> y.contains(name) by {
            if x.contains(name) {
                let i = choose|i: int| 0 <= i < x.len() && x[i] == name;
                assert(precedes(a[i], a[a.len() - 1]));
                lemma_precedes_irreflexive(name);
                assert(a.contains(name));
                let j = choose|j: int| 0 <= j < b.len() && b[j] == name;
                assert(y[j] == name);
            }
            if y.contains(name) {
                let i = choose|i: int| 0 <= i < y.len() && y[i] == name;
                assert(precedes(b[i], b[b.len() - 1]));
                lemma_precedes_irreflexive(name);
                assert(b.contains(name));
                let j = choose|j: int| 0 <= j < a.len() && a[j] == name;
                assert(x[j] == name);
            }
        }
        lemma_same_names(x, y);
        assert(a =~= x.push(a.last()));
        assert(b =~= y.push(b.last()));
    }
}

/// There is one alphabetical list of what a map holds.
pub proof fn lemma_alphabetical<V>(map: Map<Seq<char>, V>, names: Seq<Seq<char>>, values: Seq<V>)
    requires
        lists_map(map, names, values),
    ensures
        alphabetical(map) == values,
{
    assert(is_listing(map, values));
    let found = alphabetical(map);
    assert(is_listing(map, found));
    let other = choose|other: Seq<Seq<char>>| lists_map(map, other, found);
    assert(lists_map(map, other, found));
    assert forall|name: Seq<char>| names.contains(name) <==> other.contains(name) by {
        assert(map.contains_key(name) <==> names.contains(name));
    }
    lemma_same_names(names, other);
    assert forall|i: int| 0 <= i < values.len() implies found[i] == values[i] by {
        assert(map[names[i]] == values[i]);
        assert(map[other[i]] == found[i]);
    }
    assert(found =~= values);
}

/// The entries of a map are its alphabetical list.
pub proof fn lemma_entries_listed<K: Named, V>(entries: Seq<(K, V)>)
    requires
        ascending(keys_of(entries)),
    ensures
        lists_map(
            map_of(entries),
            names_of(keys_of(entries)),
            Seq::new(entries.len(), |i: int| entries[i].1),
        ),
{
    let map = map_of(entries);
    let keys = keys_of(entries);
    let names = names_of(keys);
    assert forall|i: int, j: int| 0 <= i < j < names.len() implies precedes(#[trigger] names[i], #[trigger] names[j]) by {
        assert(precedes(keys[i].name(), keys[j].name()));
    }
    assert forall|name: Seq<char>| #[trigger] map.contains_key(name) <==> names.contains(name) by {
        if map.contains_key(name) {
            let at = lemma_place(entries, name);
            assert(names[at] == name);
        }
        if names.contains(name) {
            let at = choose|at: int| 0 <= at < names.len() && names[at] == name;
            assert(keys[at].name() == name);
        }
    }
    assert forall|i: int| 0 <= i < names.len() implies map[#[trigger] names[i]] == entries[i].1 by {
        lemma_entry(entries, i);
    }
}

/// What a finite map holds can be listed in alphabetical order.
pub proof fn lemma_listing_exists<V>(map: Map<Seq<char>, V>) -> (r: (Seq<Seq<char>>, Seq<V>))
    requires
        map.dom().finite(),
    ensures
        lists_map(map, r.0, r.1),
        alphabetical(map) == r.1,
    decreases map.dom().len(),
{
    let r = if map.dom().len() == 0 {
        assert(map.dom() =~= Set::empty());
        let names = Seq::<Seq<char>>::empty();
        let values = Seq::<V>::empty();
        assert forall|name: Seq<char>| #[trigger] map.contains_key(name) <==> names.contains(name) by {
            assert(!map.dom().contains(name));
        }
        (names, values)
    } else {
        let name = map.dom().choose();
        let smaller = map.remove(name);
        assert(smaller.dom() =~= map.dom().remove(name));
        let (names, values) = lemma_listing_exists(smaller);
        assert(!smaller.contains_key(name));
        let at = lemma_place_for(names, name);
        let longer = names.insert(at, name);
        let all = values.insert(at, map[name]);
        assert forall|i: int, j: int| 0 <= i < j < longer.len() implies precedes(#[trigger] longer[i], #[trigger] longer[j]) by {
            let x = if i < at { i } else { i - 1 };
            let y = if j < at { j } else { j - 1 };
            if i != at {
                assert(longer[i] == names[x]);
            }
            if j != at {
                assert(longer[j] == names[y]);
            }
            if i != at && j != at {
                assert(precedes(names[x], names[y]));
            }
        }
        assert forall|n: Seq<char>| #[trigger] map.contains_key(n) <==> longer.contains(n) by {
            if map.contains_key(n) && n != name {
                assert(smaller.contains_key(n));
                let k = choose|k: int| 0 <= k < names.len() && names[k] == n;
                let x = if k < at { k } else { k + 1 };
                assert(longer[x] == n);
            }
            if n == name {
                assert(longer[at] == n);
            }
            if longer.contains(n) && n != name {
                let k = choose|k: int| 0 <= k < longer.len() && longer[k] == n;
                let x = if k < at { k } else { k - 1 };
                assert(names[x] == n);
                assert(smaller.contains_key(n));
            }
        }
        assert forall|i: int| 0 <= i < longer.len() implies map[#[trigger] longer[i]] == all[i] by {
            if i != at {
                let x = if i < at { i } else { i - 1 };
                assert(longer[i] == names[x]);
                assert(smaller[names[x]] == values[x]);
                assert(names.contains(names[x]));
                assert(smaller.contains_key(names[x]));
            }
        }
        (longer, all)
    };
    lemma_alphabetical(map, r.0, r.1);
    r
}

/// Where a new name belongs in an ascending list.
proof fn lemma_place_for(names: Seq<Seq<char>>, name: Seq<char>) -> (at: int)
    requires
        names_ascend(names),
        !names.contains(name),
    ensures
        0 <= at <= names.len(),
        forall|i: int| 0 <= i < at ==> precedes(#[trigger] names[i], name),
        forall|i: int| at <= i < names.len() ==> precedes(name, #[trigger] names[i]),
    decreases names.len(),
{
    if names.len() == 0 {
        0
    } else {
        let front = names.drop_last();
        assert(names.contains(names.last()));
        lemma_precedes_total(names.last(), name);
        if precedes(names.last(), name) {
            assert forall|i: int| 0 <= i < names.len() implies precedes(#[trigger] names[i], name) by {
                if i < names.len() - 1 {
                    assert(precedes(names[i], names[names.len() - 1]));
                    lemma_precedes_transitive(names[i], names.last(), name);
                }
            }
            names.len() as int
        } else {
            assert forall|n: Seq<char>| front.contains(n) implies names.contains(n) by {
                let k = choose|k: int| 0 <= k < front.len() && front[k] == n;
                assert(names[k] == n);
            }
            let at = lemma_place_for(front, name);
            assert forall|i: int| 0 <= i < at implies precedes(#[trigger] names[i], name) by {
                assert(front[i] == names[i]);
            }
            assert forall|i: int| at <= i < names.len() implies precedes(name, #[trigger] names[i]) by {
                if i < front.len() {
                    assert(front[i] == names[i]);
                }
            }
            at
        }
    }
}

/// Whether values stand in alphabetical order of their names.
pub open spec fn in_order<K: Named>(values: Seq<K>) -> bool {
    forall|i: int, j: int|
        0 <= i < j < values.len() ==> !precedes((#[trigger] values[j]).name(), (#[trigger] values[i]).name())
}

/// Where a new value belongs: behind those whose names do not come after its own.
pub open spec fn place_among<K: Named>(values: Seq<K>, name: Seq<char>) -> int
    decreases values.len(),
{
    if values.len() > 0 && precedes(name, values.last().name()) {
        place_among(values.drop_last(), name)
    } else {
        values.len() as int
    }
}

/// The values in alphabetical order of their names; those with the same name stay in their order.
pub open spec fn sorted_by_name<K: Named>(values: Seq<K>) -> Seq<K>
    decreases values.len(),
{
    if values.len() == 0 {
        seq![]
    } else {
        let rest = sorted_by_name(values.drop_last());
        rest.insert(place_among(rest, values.last().name()), values.last())
    }
}

proof fn lemma_place_among<K: Named>(values: Seq<K>, name: Seq<char>, at: int)
    requires
        0 <= at <= values.len(),
        forall|i: int| 0 <= i < at ==> !precedes(name, (#[trigger] values[i]).name()),
        forall|i: int| at <= i < values.len() ==> precedes(name, (#[trigger] values[i]).name()),
    ensures
        place_among(values, name) == at,
    decreases values.len(),
{
    if values.len() > at {
        lemma_place_among(values.drop_last(), name, at);
    }
}

/// Of two names, not both come before the other.
proof fn lemma_not_both(a: Seq<char>, b: Seq<char>)
    ensures
        !(precedes(a, b) && precedes(b, a)),
{
    if precedes(a, b) && precedes(b, a) {
        lemma_precedes_transitive(a, b, a);
        lemma_precedes_irreflexive(a);
    }
}

/// Where a new value belongs: behind those whose names do not come after its own.
fn find_place_among<K: Named>(values: &Vec<K>, name: &str) -> (r: usize)
    requires
        in_order(values@),
    ensures
        r <= values.len(),
        forall|i: int| 0 <= i < r ==> !precedes(name@, (#[trigger] values@[i]).name()),
        forall|i: int| r <= i < values@.len() ==> precedes(name@, (#[trigger] values@[i]).name()),
{
    let mut at: usize = values.len();
    while at > 0 && str_precedes(name, values[at - 1].as_name())
        invariant
            at <= values.len(),
            forall|i: int| at <= i < values@.len() ==> precedes(name@, (#[trigger] values@[i]).name()),
        decreases at,
    {
        at -= 1;
    }
    proof {
        assert forall|i: int| 0 <= i < at implies !precedes(name@, (#[trigger] values@[i]).name()) by {
            let last = values@[at - 1].name();
            if i < at - 1 && precedes(name@, values@[i].name()) {
                lemma_precedes_total(values@[i].name(), last);
                if precedes(values@[i].name(), last) {
                    lemma_precedes_transitive(name@, values@[i].name(), last);
                }
            }
        }
    }
    at
}

/// Puts values in alphabetical order of their names; those with the same name stay in their order.
pub fn sort_by_name<K: Named>(values: Vec<K>) -> (r: Vec<K>)
    ensures
        r@ == sorted_by_name(values@),
        in_order(r@),
{
    let ghost all = values@;
    let mut rest = values;
    let mut sorted: Vec<K> = Vec::new();
    let ghost mut n: int = 0;
    assert(all.take(0) =~= seq![]);
    while rest.len() > 0
        invariant
            0 <= n <= all.len(),
            rest@ == all.skip(n),
            sorted@ == sorted_by_name(all.take(n)),
            in_order(sorted@),
        decreases rest.len(),
    {
        let value = rest.remove(0);
        let at: usize = find_place_among(&sorted, value.as_name());
        let ghost before = sorted@;
        proof {
            assert(rest@ =~= all.skip(n + 1));
            lemma_place_among(before, value.name(), at as int);
            assert(all.take(n + 1).drop_last() =~= all.take(n));
            assert(all.take(n + 1).last() == value);
        }
        sorted.insert(at, value);
        proof {
            let after = sorted@;
            assert(after =~= before.insert(at as int, value));
            assert forall|x: int, y: int| 0 <= x < y < after.len() implies !precedes(
                (#[trigger] after[y]).name(),
                (#[trigger] after[x]).name(),
            ) by {
                let a = if x < at { x } else { x - 1 };
                let b = if y < at { y } else { y - 1 };
                if x == at {
                    assert(after[y] == before[b]);
                    lemma_not_both(value.name(), before[b].name());
                } else if y == at {
                    assert(after[x] == before[a]);
                } else {
                    assert(after[x] == before[a]);
                    assert(after[y] == before[b]);
                }
            }
            n = n + 1;
        }
    }
    assert(all.take(n) =~= all);
    sorted
}

} // verus!
