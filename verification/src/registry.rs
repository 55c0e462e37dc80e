//! The registry that parsing produces, and the two string collections that
//! parsing fills: the alias map and the sets of wanted names.
use vstd::prelude::*;
use crate::api::Api;
use crate::xml_events::opt_view;

verus! {

/// The model of a list of strings.
pub open spec fn strings_view(v: Seq<String>) -> Seq<Seq<char>> {
    v.map_values(|s: String| s@)
}

/// A name with its type, as in a command prototype or parameter.
#[derive(Debug)]
pub struct Binding {
    pub ident: String,
    pub ty: String,
}

/// The model of [`Binding`].
pub struct SpecBinding {
    pub ident: Seq<char>,
    pub ty: Seq<char>,
}

impl View for Binding {
    type V = SpecBinding;

    open spec fn view(&self) -> SpecBinding {
        SpecBinding { ident: self.ident@, ty: self.ty@ }
    }
}

/// The model of a list of bindings.
pub open spec fn bindings_view(v: Seq<Binding>) -> Seq<SpecBinding> {
    v.map_values(|b: Binding| b@)
}

/// The GLX opcode of a command.
#[derive(Debug)]
pub struct GlxOpcode {
    pub ty: String,
    pub opcode: String,
    pub name: Option<String>,
}

/// The model of [`GlxOpcode`].
pub struct SpecGlxOpcode {
    pub ty: Seq<char>,
    pub opcode: Seq<char>,
    pub name: Option<Seq<char>>,
}

impl View for GlxOpcode {
    type V = SpecGlxOpcode;

    open spec fn view(&self) -> SpecGlxOpcode {
        SpecGlxOpcode { ty: self.ty@, opcode: self.opcode@, name: opt_view(self.name) }
    }
}

/// The model of an optional GLX opcode.
pub open spec fn glx_view(o: Option<GlxOpcode>) -> Option<SpecGlxOpcode> {
    match o {
        Some(g) => Some(g@),
        None => None,
    }
}

/// An enum definition.
#[derive(Debug)]
pub struct Enum {
    pub ident: String,
    pub value: String,
    pub alias: Option<String>,
    pub ty: Option<String>,
}

/// The model of [`Enum`].
pub struct SpecEnum {
    pub ident: Seq<char>,
    pub value: Seq<char>,
    pub alias: Option<Seq<char>>,
    pub ty: Option<Seq<char>>,
}

impl View for Enum {
    type V = SpecEnum;

    open spec fn view(&self) -> SpecEnum {
        SpecEnum {
            ident: self.ident@,
            value: self.value@,
            alias: opt_view(self.alias),
            ty: opt_view(self.ty),
        }
    }
}

/// The model of a list of enums.
pub open spec fn enums_view(v: Seq<Enum>) -> Seq<SpecEnum> {
    v.map_values(|e: Enum| e@)
}

/// A command definition.
#[derive(Debug)]
pub struct Cmd {
    pub proto: Binding,
    pub params: Vec<Binding>,
    pub alias: Option<String>,
    pub vecequiv: Option<String>,
    pub glx: Option<GlxOpcode>,
}

/// The model of [`Cmd`].
pub struct SpecCmd {
    pub proto: SpecBinding,
    pub params: Seq<SpecBinding>,
    pub alias: Option<Seq<char>>,
    pub vecequiv: Option<Seq<char>>,
    pub glx: Option<SpecGlxOpcode>,
}

impl View for Cmd {
    type V = SpecCmd;

    open spec fn view(&self) -> SpecCmd {
        SpecCmd {
            proto: self.proto@,
            params: bindings_view(self.params@),
            alias: opt_view(self.alias),
            vecequiv: opt_view(self.vecequiv),
            glx: glx_view(self.glx),
        }
    }
}

/// The model of a list of commands.
pub open spec fn cmds_view(v: Seq<Cmd>) -> Seq<SpecCmd> {
    v.map_values(|c: Cmd| c@)
}

/// The map that a list of (key, value) pairs describes; a later pair for a
/// key gives way to an earlier one.
pub open spec fn map_of<K, V>(s: Seq<(K, V)>) -> Map<K, V>
    decreases s.len(),
{
    if s.len() == 0 {
        Map::empty()
    } else {
        map_of(s.drop_first()).insert(s[0].0, s[0].1)
    }
}

/// No key occurs twice in the list.
pub open spec fn keys_unique<K, V>(s: Seq<(K, V)>) -> bool {
    forall|i: int, j: int| 0 <= i < j < s.len() ==> s[i].0 != s[j].0
}

/// The keys of `map_of(s)` are the keys in `s`.
pub proof fn lemma_map_of_dom<K, V>(s: Seq<(K, V)>, k: K)
    ensures
        map_of(s).contains_key(k) <==> exists|i: int| 0 <= i < s.len() && s[i].0 == k,
    decreases s.len(),
{
    if s.len() > 0 {
        lemma_map_of_dom(s.drop_first(), k);
        if map_of(s).contains_key(k) && s[0].0 != k {
            let i = choose|i: int| 0 <= i < s.len() - 1 && s.drop_first()[i].0 == k;
            assert(s[i + 1].0 == k);
        }
        if exists|i: int| 0 <= i < s.len() && s[i].0 == k {
            let i = choose|i: int| 0 <= i < s.len() && s[i].0 == k;
            if i > 0 {
                assert(s.drop_first()[i - 1].0 == k);
            }
        }
    }
}

/// With unique keys, `map_of(s)` maps each key of `s` to its value there.
pub proof fn lemma_map_of_index<K, V>(s: Seq<(K, V)>, i: int)
    requires
        keys_unique(s),
        0 <= i < s.len(),
    ensures
        map_of(s).contains_key(s[i].0),
        map_of(s)[s[i].0] == s[i].1,
    decreases s.len(),
{
    if i > 0 {
        let t = s.drop_first();
        assert(keys_unique(t)) by {
            assert forall|a: int, b: int| 0 <= a < b < t.len() implies t[a].0 != t[b].0 by {
                assert(s[a + 1].0 != s[b + 1].0);
            }
        }
        lemma_map_of_index(t, i - 1);
        assert(s[0].0 != s[i].0);
    }
}

/// Replacing the value of one key in a list with unique keys replaces it in
/// the map.
pub proof fn lemma_map_of_update<K, V>(s: Seq<(K, V)>, i: int, v: V)
    requires
        keys_unique(s),
        0 <= i < s.len(),
    ensures
        keys_unique(s.update(i, (s[i].0, v))),
        map_of(s.update(i, (s[i].0, v))) == map_of(s).insert(s[i].0, v),
{
    let t = s.update(i, (s[i].0, v));
    assert(keys_unique(t)) by {
        assert forall|a: int, b: int| 0 <= a < b < t.len() implies t[a].0 != t[b].0 by {
            assert(s[a].0 != s[b].0);
        }
    }
    let m = map_of(s).insert(s[i].0, v);
    assert forall|k: K| #[trigger] map_of(t).contains_key(k) <==> m.contains_key(k) by {
        lemma_map_of_dom(t, k);
        lemma_map_of_dom(s, k);
        if exists|j: int| 0 <= j < s.len() && s[j].0 == k {
            let j = choose|j: int| 0 <= j < s.len() && s[j].0 == k;
            assert(t[j].0 == k);
        }
        if exists|j: int| 0 <= j < t.len() && t[j].0 == k {
            let j = choose|j: int| 0 <= j < t.len() && t[j].0 == k;
            assert(s[j].0 == k);
        }
    }
    assert forall|k: K| map_of(t).contains_key(k) implies #[trigger] map_of(t)[k] == m[k] by {
        lemma_map_of_dom(t, k);
        let j = choose|j: int| 0 <= j < t.len() && t[j].0 == k;
        lemma_map_of_index(t, j);
        if j != i {
            lemma_map_of_index(s, j);
        }
    }
    assert(map_of(t) =~= m);
}

/// Appending a pair with a new key adds that key to the map.
pub proof fn lemma_map_of_push<K, V>(s: Seq<(K, V)>, k: K, v: V)
    requires
        keys_unique(s),
        forall|j: int| 0 <= j < s.len() ==> s[j].0 != k,
    ensures
        keys_unique(s.push((k, v))),
        map_of(s.push((k, v))) == map_of(s).insert(k, v),
{
    let t = s.push((k, v));
    assert(keys_unique(t)) by {
        assert forall|a: int, b: int| 0 <= a < b < t.len() implies t[a].0 != t[b].0 by {
            if b < s.len() {
                assert(s[a].0 != s[b].0);
            }
        }
    }
    let m = map_of(s).insert(k, v);
    assert forall|x: K| #[trigger] map_of(t).contains_key(x) <==> m.contains_key(x) by {
        lemma_map_of_dom(t, x);
        lemma_map_of_dom(s, x);
        if x == k {
            assert(t[s.len() as int].0 == x);
        }
        if exists|j: int| 0 <= j < s.len() && s[j].0 == x {
            let j = choose|j: int| 0 <= j < s.len() && s[j].0 == x;
            assert(t[j].0 == x);
        }
        if exists|j: int| 0 <= j < t.len() && t[j].0 == x {
            let j = choose|j: int| 0 <= j < t.len() && t[j].0 == x;
            if j < s.len() {
                assert(s[j].0 == x);
            }
        }
    }
    assert forall|x: K| map_of(t).contains_key(x) implies #[trigger] map_of(t)[x] == m[x] by {
        lemma_map_of_dom(t, x);
        let j = choose|j: int| 0 <= j < t.len() && t[j].0 == x;
        lemma_map_of_index(t, j);
        if j < s.len() {
            lemma_map_of_index(s, j);
        }
    }
    assert(map_of(t) =~= m);
}

/// The list of values stored under `k`, or the empty list.
pub open spec fn values_of(m: Map<Seq<char>, Seq<Seq<char>>>, k: Seq<char>) -> Seq<Seq<char>> {
    if m.contains_key(k) {
        m[k]
    } else {
        Seq::empty()
    }
}

/// Every key of either map, holding its values in `a` followed by its
/// values in `b`.
pub open spec fn merged(
    a: Map<Seq<char>, Seq<Seq<char>>>,
    b: Map<Seq<char>, Seq<Seq<char>>>,
) -> Map<Seq<char>, Seq<Seq<char>>> {
    Map::new(
        |k: Seq<char>| a.contains_key(k) || b.contains_key(k),
        |k: Seq<char>| values_of(a, k) + values_of(b, k),
    )
}

/// A map from a name to the list of names filed under it, such as the
/// commands that name a command as their alias.
///
/// The entries are kept as pairs in a vector: vstd specifies std's hashed
/// maps only for keys that obey its key model, which it establishes for
/// integer keys and not for `String`.
#[derive(Debug)]
pub struct AliasMap {
    entries: Vec<(String, Vec<String>)>,
}

impl AliasMap {
    /// The entries as (key, values) pairs of character sequences.
    pub closed spec fn entries_view(&self) -> Seq<(Seq<char>, Seq<Seq<char>>)> {
        self.entries@.map_values(|e: (String, Vec<String>)| (e.0@, strings_view(e.1@)))
    }

    /// No key is stored twice.
    pub closed spec fn wf(&self) -> bool {
        keys_unique(self.entries_view())
    }

    /// The empty map.
    pub fn new() -> (m: AliasMap)
        ensures
            m.wf(),
            m@ == Map::<Seq<char>, Seq<Seq<char>>>::empty(),
    {
        let m = AliasMap { entries: Vec::new() };
        assert(m.entries_view() =~= Seq::<(Seq<char>, Seq<Seq<char>>)>::empty());
        m
    }

    /// The number of keys.
    pub fn len(&self) -> (n: usize)
        requires
            self.wf(),
        ensures
            n == self@.dom().len(),
    {
        proof {
            self.lemma_dom_len();
        }
        self.entries.len()
    }

    proof fn lemma_dom_len(&self)
        requires
            self.wf(),
        ensures
            self@.dom().len() == self.entries@.len(),
            self@.dom().finite(),
    {
        lemma_map_of_len(self.entries_view());
    }

    /// The position of `key` among the entries.
    fn find(&self, key: &String) -> (r: Option<usize>)
        ensures
            match r {
                Some(i) => i < self.entries_view().len() && self.entries_view()[i as int].0 == key@,
                None => forall|j: int|
                    0 <= j < self.entries_view().len() ==> self.entries_view()[j].0 != key@,
            },
    {
        let mut i: usize = 0;
        while i < self.entries.len()
            invariant
                0 <= i <= self.entries@.len(),
                forall|j: int| 0 <= j < i ==> self.entries_view()[j].0 != key@,
            decreases self.entries.len() - i,
        {
            if self.entries[i].0 == *key {
                return Some(i);
            }
            i += 1;
        }
        None
    }

    /// The values filed under `key`, if it is a key of the map.
    pub fn get(&self, key: &String) -> (r: Option<&Vec<String>>)
        requires
            self.wf(),
        ensures
            match r {
                Some(v) => self@.contains_key(key@) && self@[key@] == strings_view(v@),
                None => !self@.contains_key(key@),
            },
    {
        proof {
            lemma_map_of_dom(self.entries_view(), key@);
        }
        match self.find(key) {
            Some(i) => {
                proof {
                    lemma_map_of_index(self.entries_view(), i as int);
                }
                Some(&self.entries[i].1)
            },
            None => None,
        }
    }

    /// Files `values` under `key`, after the values already there.
    pub fn append_values(&mut self, key: String, values: Vec<String>)
        requires
            old(self).wf(),
        ensures
            final(self).wf(),
            final(self)@ == old(self)@.insert(
                key@,
                values_of(old(self)@, key@) + strings_view(values@),
            ),
    {
        let ghost old_ev = self.entries_view();
        proof {
            lemma_map_of_dom(old_ev, key@);
        }
        match self.find(&key) {
            Some(i) => {
                proof {
                    lemma_map_of_index(old_ev, i as int);
                }
                let mut values = values;
                let ghost added = strings_view(values@);
                let mut entry = self.entries.remove(i);
                let ghost before = strings_view(entry.1@);
                entry.1.append(&mut values);
                assert(strings_view(entry.1@) =~= before + added);
                self.entries.insert(i, entry);
                proof {
                    assert(self.entries_view() =~= old_ev.update(
                        i as int,
                        (old_ev[i as int].0, old_ev[i as int].1 + added),
                    ));
                    lemma_map_of_update(old_ev, i as int, old_ev[i as int].1 + added);
                }
            },
            None => {
                let ghost added = strings_view(values@);
                self.entries.push((key, values));
                proof {
                    assert(self.entries_view() =~= old_ev.push((key@, added)));
                    lemma_map_of_push(old_ev, key@, added);
                    assert(values_of(old(self)@, key@) + added =~= added);
                }
            },
        }
    }

    /// Files `value` under `key`, after the values already there.
    pub fn push_value(&mut self, key: String, value: String)
        requires
            old(self).wf(),
        ensures
            final(self).wf(),
            final(self)@ == old(self)@.insert(key@, values_of(old(self)@, key@).push(value@)),
    {
        let ghost v = value@;
        let mut values: Vec<String> = Vec::new();
        values.push(value);
        assert(strings_view(values@) =~= seq![v]);
        self.append_values(key, values);
        assert(values_of(old(self)@, key@) + seq![v] =~= values_of(old(self)@, key@).push(v));
    }
}

impl View for AliasMap {
    type V = Map<Seq<char>, Seq<Seq<char>>>;

    closed spec fn view(&self) -> Map<Seq<char>, Seq<Seq<char>>> {
        map_of(self.entries_view())
    }
}

/// With unique keys, the map has as many keys as the list has pairs.
pub proof fn lemma_map_of_len<K, V>(s: Seq<(K, V)>)
    requires
        keys_unique(s),
    ensures
        map_of(s).dom().finite(),
        map_of(s).dom().len() == s.len(),
    decreases s.len(),
{
    if s.len() > 0 {
        let t = s.drop_first();
        assert(keys_unique(t)) by {
            assert forall|a: int, b: int| 0 <= a < b < t.len() implies t[a].0 != t[b].0 by {
                assert(s[a + 1].0 != s[b + 1].0);
            }
        }
        lemma_map_of_len(t);
        lemma_map_of_dom(t, s[0].0);
        if map_of(t).contains_key(s[0].0) {
            let j = choose|j: int| 0 <= j < t.len() && t[j].0 == s[0].0;
            assert(s[j + 1].0 == s[0].0);
        }
    }
}

/// Files every key of `b`, with its values, into `a`: afterwards each key
/// holds its values from `a` followed by its values from `b`.
pub fn merge_map(a: &mut AliasMap, b: AliasMap)
    requires
        old(a).wf(),
        b.wf(),
    ensures
        final(a).wf(),
        final(a)@ == merged(old(a)@, b@),
{
    let ghost bv = b.entries_view();
    let ghost a0 = a@;
    let mut entries = b.entries;
    assert(bv.subrange(bv.len() as int, bv.len() as int) =~= Seq::<(Seq<char>, Seq<Seq<char>>)>::empty());
    assert(merged(a0, Map::empty()) =~= a0);
    while entries.len() > 0
        invariant
            a.wf(),
            entries@.len() <= bv.len(),
            keys_unique(bv),
            forall|j: int| 0 <= j < entries@.len() ==>
                (entries@[j].0@, strings_view(entries@[j].1@)) == #[trigger] bv[j],
            a@ == merged(a0, map_of(bv.subrange(entries@.len() as int, bv.len() as int))),
        decreases entries@.len(),
    {
        let n = entries.len();
        let (k, v) = entries.pop().unwrap();
        let ghost rest = bv.subrange(n as int, bv.len() as int);
        let ghost with = bv.subrange(n - 1, bv.len() as int);
        assert(with.drop_first() =~= rest);
        assert(bv[n - 1] == (k@, strings_view(v@)));
        proof {
            lemma_map_of_dom(rest, k@);
            assert(!map_of(rest).contains_key(k@)) by {
                if map_of(rest).contains_key(k@) {
                    let j = choose|j: int| 0 <= j < rest.len() && rest[j].0 == k@;
                    assert(bv[n + j].0 == bv[n - 1].0);
                }
            }
        }
        let ghost before = a@;
        a.append_values(k, v);
        assert(a@ =~= merged(a0, map_of(with)));
    }
    assert(bv.subrange(0, bv.len() as int) =~= bv);
}

/// A set of names, kept in a vector for the reason given at [`AliasMap`].
#[derive(Debug)]
pub struct NameSet {
    names: Vec<String>,
}

impl View for NameSet {
    type V = Set<Seq<char>>;

    closed spec fn view(&self) -> Set<Seq<char>> {
        Set::new(|s: Seq<char>| strings_view(self.names@).contains(s))
    }
}

impl NameSet {
    /// The empty set.
    pub fn new() -> (s: NameSet)
        ensures
            s@ == Set::<Seq<char>>::empty(),
    {
        let s = NameSet { names: Vec::new() };
        assert(s@ =~= Set::<Seq<char>>::empty());
        s
    }

    /// Whether `name` is in the set.
    pub fn contains(&self, name: &String) -> (b: bool)
        ensures
            b == self@.contains(name@),
    {
        let mut i: usize = 0;
        while i < self.names.len()
            invariant
                0 <= i <= self.names@.len(),
                forall|j: int| 0 <= j < i ==> self.names@[j]@ != name@,
            decreases self.names.len() - i,
        {
            if self.names[i] == *name {
                assert(strings_view(self.names@)[i as int] == name@);
                return true;
            }
            i += 1;
        }
        assert(!strings_view(self.names@).contains(name@)) by {
            if strings_view(self.names@).contains(name@) {
                let j = choose|j: int| 0 <= j < self.names@.len() && strings_view(self.names@)[j] == name@;
                assert(self.names@[j]@ == name@);
            }
        }
        false
    }

    /// Adds `name` to the set.
    pub fn insert(&mut self, name: String)
        ensures
            final(self)@ == old(self)@.insert(name@),
    {
        let ghost old_names = strings_view(self.names@);
        let ghost n = name@;
        self.names.push(name);
        assert(strings_view(self.names@) =~= old_names.push(n));
        assert forall|s: Seq<char>| #[trigger] self@.contains(s) <==> old(self)@.insert(n).contains(s) by {
            if old_names.push(n).contains(s) && s != n {
                let j = choose|j: int| 0 <= j < old_names.len() + 1 && old_names.push(n)[j] == s;
                assert(old_names[j] == s);
            }
            if old_names.contains(s) {
                let j = choose|j: int| 0 <= j < old_names.len() && old_names[j] == s;
                assert(old_names.push(n)[j] == s);
            }
            if s == n {
                assert(old_names.push(n)[old_names.len() as int] == s);
            }
        }
        assert(self@ =~= old(self)@.insert(n));
    }

    /// Removes `name` from the set.
    pub fn remove(&mut self, name: &String)
        ensures
            final(self)@ == old(self)@.remove(name@),
    {
        let ghost old_names = strings_view(self.names@);
        let mut kept: Vec<String> = Vec::new();
        let mut i: usize = 0;
        while i < self.names.len()
            invariant
                0 <= i <= self.names@.len(),
                old_names == strings_view(self.names@),
                forall|s: Seq<char>| strings_view(kept@).contains(s) <==>
                    (s != name@ && old_names.take(i as int).contains(s)),
            decreases self.names.len() - i,
        {
            let ghost kept_before = strings_view(kept@);
            let ghost x = self.names@[i as int]@;
            if self.names[i] != *name {
                kept.push(self.names[i].clone());
                assert(strings_view(kept@) =~= kept_before.push(x));
            } else {
                assert(strings_view(kept@) =~= kept_before);
            }
            assert(old_names.take(i + 1) =~= old_names.take(i as int).push(x));
            assert forall|s: Seq<char>| strings_view(kept@).contains(s) <==>
                (s != name@ && old_names.take(i + 1).contains(s)) by {
                let t = old_names.take(i as int);
                if t.push(x).contains(s) && s != x {
                    let j = choose|j: int| 0 <= j < t.len() + 1 && t.push(x)[j] == s;
                    assert(t[j] == s);
                }
                if t.contains(s) {
                    let j = choose|j: int| 0 <= j < t.len() && t[j] == s;
                    assert(t.push(x)[j] == s);
                }
                if s == x {
                    assert(t.push(x)[t.len() as int] == s);
                }
                if strings_view(kept@).contains(s) && s != x && kept_before != strings_view(kept@) {
                    let j = choose|j: int| 0 <= j < kept_before.len() + 1 && kept_before.push(x)[j] == s;
                    assert(kept_before[j] == s);
                }
                if kept_before.contains(s) && kept_before != strings_view(kept@) {
                    let j = choose|j: int| 0 <= j < kept_before.len() && kept_before[j] == s;
                    assert(kept_before.push(x)[j] == s);
                }
                if s == x && kept_before != strings_view(kept@) {
                    assert(kept_before.push(x)[kept_before.len() as int] == s);
                }
            }
            i += 1;
        }
        assert(old_names.take(i as int) =~= old_names);
        self.names = kept;
        assert(self@ =~= old(self)@.remove(name@));
    }
}

/// The registry of one API: its enums and commands, and which commands are
/// filed as aliases of which.
#[derive(Debug)]
pub struct Registry {
    pub api: Api,
    pub enums: Vec<Enum>,
    pub cmds: Vec<Cmd>,
    pub aliases: AliasMap,
}

/// The model of [`Registry`].
pub struct SpecRegistry {
    pub api: Api,
    pub enums: Seq<SpecEnum>,
    pub cmds: Seq<SpecCmd>,
    pub aliases: Map<Seq<char>, Seq<Seq<char>>>,
}

impl View for Registry {
    type V = SpecRegistry;

    open spec fn view(&self) -> SpecRegistry {
        SpecRegistry {
            api: self.api,
            enums: enums_view(self.enums@),
            cmds: cmds_view(self.cmds@),
            aliases: self.aliases@,
        }
    }
}

} // verus!
