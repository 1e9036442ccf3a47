//! Configuration values and the string-keyed maps that hold them.

use vstd::prelude::*;
use crate::text::str_equal;

verus! {

broadcast use vstd::std_specs::vec::axiom_vec_decreases_to_view;

/// The mathematical content of a configuration value: two values with the
/// same content have it whatever order their table entries were stored in.
pub enum Content {
    Str(Seq<char>),
    Int(i64),
    /// A binary64 floating-point number, by its IEEE 754 bit pattern.
    Float(u64),
    Bool(bool),
    List(Seq<Content>),
    Table(Map<Seq<char>, Content>),
    Null,
}

/// A configuration value read from a file or from the environment.
///
/// A float is held by its IEEE 754 binary64 bit pattern (`f64::to_bits`).
#[derive(Debug)]
pub enum ConfigValue {
    String(String),
    Integer(i64),
    Float(u64),
    Boolean(bool),
    Array(Vec<ConfigValue>),
    Table(ConfigMap),
    Null,
}

/// A map from string keys to configuration values.
///
/// Entries are kept in insertion order; no key occurs twice.
#[derive(Debug)]
pub struct ConfigMap {
    entries: Vec<(String, ConfigValue)>,
}

/// The content of a configuration value.
pub open spec fn value_model(v: ConfigValue) -> Content
    decreases v,
{
    match v {
        ConfigValue::String(s) => Content::Str(s@),
        ConfigValue::Integer(i) => Content::Int(i),
        ConfigValue::Float(b) => Content::Float(b),
        ConfigValue::Boolean(b) => Content::Bool(b),
        ConfigValue::Array(items) => Content::List(list_model(items@)),
        ConfigValue::Table(m) => Content::Table(m.model()),
        ConfigValue::Null => Content::Null,
    }
}

/// The contents of a sequence of configuration values, element by element.
pub open spec fn list_model(s: Seq<ConfigValue>) -> Seq<Content>
    decreases s,
{
    if s.len() == 0 {
        Seq::empty()
    } else {
        list_model(s.drop_last()).push(value_model(s.last()))
    }
}

/// The map that a sequence of entries denotes, a later entry overriding an
/// earlier one with the same key.
pub open spec fn entries_model(s: Seq<(String, ConfigValue)>) -> Map<Seq<char>, Content>
    decreases s,
{
    if s.len() == 0 {
        Map::empty()
    } else {
        entries_model(s.drop_last()).insert(s.last().0@, value_model(s.last().1))
    }
}

/// No key occurs twice among the entries.
pub open spec fn keys_unique(s: Seq<(String, ConfigValue)>) -> bool {
    forall|i: int, j: int|
        0 <= i < s.len() && 0 <= j < s.len() && i != j ==> #[trigger] s[i].0@ != #[trigger] s[j].0@
}

impl View for ConfigValue {
    type V = Content;

    open spec fn view(&self) -> Content {
        value_model(*self)
    }
}

impl View for ConfigMap {
    type V = Map<Seq<char>, Content>;

    open spec fn view(&self) -> Map<Seq<char>, Content> {
        self.model()
    }
}

/// The contents of a sequence of values has one element for each value.
pub proof fn lemma_list_model(s: Seq<ConfigValue>)
    ensures
        list_model(s).len() == s.len(),
        forall|i: int| 0 <= i < s.len() ==> #[trigger] list_model(s)[i] == value_model(s[i]),
    decreases s.len(),
{
    if s.len() > 0 {
        lemma_list_model(s.drop_last());
    }
}

/// Entries with distinct keys denote a finite map with one key for each
/// entry, holding that entry's value.
pub proof fn lemma_entries_model(s: Seq<(String, ConfigValue)>)
    requires
        keys_unique(s),
    ensures
        entries_model(s).dom().finite(),
        entries_model(s).len() == s.len(),
        forall|k: Seq<char>|
            #[trigger] entries_model(s).contains_key(k) <==> exists|i: int|
                0 <= i < s.len() && s[i].0@ == k,
        forall|i: int|
            0 <= i < s.len() ==> #[trigger] entries_model(s)[s[i].0@] == value_model(s[i].1),
    decreases s.len(),
{
    if s.len() > 0 {
        let t = s.drop_last();
        assert(keys_unique(t)) by {
            assert forall|i: int, j: int|
                0 <= i < t.len() && 0 <= j < t.len() && i != j implies #[trigger] t[i].0@
                != #[trigger] t[j].0@ by {
                assert(s[i].0@ != s[j].0@);
            }
        }
        lemma_entries_model(t);
        let last = s.last();
        assert(!entries_model(t).contains_key(last.0@)) by {
            if entries_model(t).contains_key(last.0@) {
                let i = choose|i: int| 0 <= i < t.len() && t[i].0@ == last.0@;
                assert(s[i].0@ != s[s.len() - 1].0@);
            }
        }
        assert forall|k: Seq<char>|
            #[trigger] entries_model(s).contains_key(k) <==> exists|i: int|
                0 <= i < s.len() && s[i].0@ == k by {
            if entries_model(s).contains_key(k) && k != last.0@ {
                let i = choose|i: int| 0 <= i < t.len() && t[i].0@ == k;
                assert(s[i].0@ == k);
            }
            if exists|i: int| 0 <= i < s.len() && s[i].0@ == k {
                let i = choose|i: int| 0 <= i < s.len() && s[i].0@ == k;
                if i < s.len() - 1 {
                    assert(t[i].0@ == k);
                }
            }
        }
        assert forall|i: int| 0 <= i < s.len() implies #[trigger] entries_model(s)[s[i].0@]
            == value_model(s[i].1) by {
            if i < s.len() - 1 {
                assert(s[i].0@ != s[s.len() - 1].0@);
                assert(t[i] == s[i]);
            }
        }
    }
}

impl ConfigMap {
    /// The map that the entries denote.
    pub closed spec fn model(self) -> Map<Seq<char>, Content>
        decreases self,
    {
        entries_model(self.entries@)
    }

    #[verifier::type_invariant]
    closed spec fn keys_distinct(self) -> bool {
        keys_unique(self.entries@)
    }

    /// Creates an empty map.
    pub fn new() -> (m: ConfigMap)
        ensures
            m@ == Map::<Seq<char>, Content>::empty(),
    {
        ConfigMap { entries: Vec::new() }
    }

    /// The position of the entry for `key`, if there is one.
    fn find(&self, key: &str) -> (r: Option<usize>)
        ensures
            match r {
                Some(i) => i < self.entries@.len() && self.entries@[i as int].0@ == key@,
                None => forall|i: int|
                    0 <= i < self.entries@.len() ==> #[trigger] self.entries@[i].0@ != key@,
            },
    {
        let n = self.entries.len();
        let mut i: usize = 0;
        while i < n
            invariant
                n == self.entries@.len(),
                i <= n,
                forall|j: int| 0 <= j < i ==> #[trigger] self.entries@[j].0@ != key@,
            decreases n - i,
        {
            if str_equal(self.entries[i].0.as_str(), key) {
                return Some(i);
            }
            i = i + 1;
        }
        None
    }

    /// The number of keys in the map.
    pub fn len(&self) -> (r: usize)
        ensures
            r == self@.len(),
    {
        proof {
            use_type_invariant(self);
            lemma_entries_model(self.entries@);
        }
        self.entries.len()
    }

    /// The value stored for `key`, if any.
    pub fn get(&self, key: &str) -> (r: Option<&ConfigValue>)
        ensures
            match r {
                Some(v) => self@.contains_key(key@) && v@ == self@[key@],
                None => !self@.contains_key(key@),
            },
    {
        proof {
            use_type_invariant(self);
            lemma_entries_model(self.entries@);
        }
        match self.find(key) {
            Some(i) => Some(&self.entries[i].1),
            None => None,
        }
    }

    /// Stores `value` under `key`, replacing what was stored there.
    pub fn insert(&mut self, key: String, value: ConfigValue)
        ensures
            final(self)@ == old(self)@.insert(key@, value@),
    {
        proof {
            use_type_invariant(&*self);
            lemma_entries_model(self.entries@);
        }
        let ghost old_entries = self.entries@;
        let ghost k = key@;
        let ghost m = value@;
        let found = self.find(key.as_str());
        let mut entries: Vec<(String, ConfigValue)> = Vec::new();
        std::mem::swap(&mut entries, &mut self.entries);
        match found {
            Some(i) => {
                entries.set(i, (key, value));
                proof {
                    let s = entries@;
                    assert forall|a: int, b: int|
                        0 <= a < s.len() && 0 <= b < s.len() && a != b implies #[trigger] s[a].0@
                        != #[trigger] s[b].0@ by {
                        assert(old_entries[a].0@ != old_entries[b].0@);
                    }
                    lemma_entries_model(s);
                    assert(entries_model(s) =~= entries_model(old_entries).insert(k, m)) by {
                        assert forall|key2: Seq<char>|
                            #[trigger] entries_model(s).contains_key(key2)
                                == entries_model(old_entries).insert(k, m).contains_key(key2) by {
                            if exists|j: int| 0 <= j < old_entries.len() && old_entries[j].0@ == key2 {
                                let j = choose|j: int|
                                    0 <= j < old_entries.len() && old_entries[j].0@ == key2;
                                assert(s[j].0@ == key2);
                            }
                            if exists|j: int| 0 <= j < s.len() && s[j].0@ == key2 {
                                let j = choose|j: int| 0 <= j < s.len() && s[j].0@ == key2;
                                assert(old_entries[j].0@ == key2);
                            }
                        }
                        assert forall|key2: Seq<char>|
                            #[trigger] entries_model(s).contains_key(key2) implies entries_model(
                                s,
                            )[key2] == entries_model(old_entries).insert(k, m)[key2] by {
                            let j = choose|j: int| 0 <= j < s.len() && s[j].0@ == key2;
                            assert(entries_model(s)[s[j].0@] == value_model(s[j].1));
                            if j != i {
                                assert(old_entries[j] == s[j]);
                                assert(entries_model(old_entries)[old_entries[j].0@] == value_model(
                                    old_entries[j].1,
                                ));
                            }
                        }
                    }
                }
            },
            None => {
                entries.push((key, value));
                proof {
                    let s = entries@;
                    assert(s.drop_last() =~= old_entries);
                    assert forall|a: int, b: int|
                        0 <= a < s.len() && 0 <= b < s.len() && a != b implies #[trigger] s[a].0@
                        != #[trigger] s[b].0@ by {
                        if a < old_entries.len() && b < old_entries.len() {
                            assert(old_entries[a].0@ != old_entries[b].0@);
                        } else if a < old_entries.len() {
                            assert(old_entries[a].0@ != k);
                        } else {
                            assert(old_entries[b].0@ != k);
                        }
                    }
                }
            },
        }
        self.entries = entries;
    }

    /// Stores a copy of every entry of `other`, replacing what was stored
    /// under its keys.
    pub fn merge(&mut self, other: &ConfigMap)
        ensures
            final(self)@ == old(self)@.union_prefer_right(other@),
    {
        proof {
            use_type_invariant(other);
        }
        let ghost base = self@;
        let n = other.entries.len();
        let mut i: usize = 0;
        while i < n
            invariant
                n == other.entries@.len(),
                i <= n,
                self@ == base.union_prefer_right(entries_model(other.entries@.take(i as int))),
                other@ == entries_model(other.entries@),
            decreases n - i,
        {
            let ghost prefix = other.entries@.take(i as int);
            assert(other.entries@.take(i + 1).drop_last() =~= prefix);
            let key = other.entries[i].0.clone();
            let value = other.entries[i].1.clone();
            self.insert(key, value);
            assert(base.union_prefer_right(entries_model(other.entries@.take(i + 1)))
                =~= base.union_prefer_right(entries_model(prefix)).insert(
                other.entries@[i as int].0@,
                value_model(other.entries@[i as int].1),
            ));
            i = i + 1;
        }
        assert(other.entries@.take(n as int) =~= other.entries@);
    }
}


/// IEEE 754 equality of two binary64 numbers given by their bit patterns:
/// a NaN equals nothing, and positive and negative zero are equal.
pub open spec fn float_bits_eq(a: u64, b: u64) -> bool {
    let a_nan = (a & 0x7ff0_0000_0000_0000u64) == 0x7ff0_0000_0000_0000u64 && (a
        & 0x000f_ffff_ffff_ffffu64) != 0;
    let b_nan = (b & 0x7ff0_0000_0000_0000u64) == 0x7ff0_0000_0000_0000u64 && (b
        & 0x000f_ffff_ffff_ffffu64) != 0;
    !a_nan && !b_nan && (a == b || ((a | b) & 0x7fff_ffff_ffff_ffffu64) == 0)
}

/// Equality of configuration contents: strings, integers and booleans by
/// value, floats as IEEE 754 numbers, lists element by element, and tables by
/// their key sets and the values under each key.
pub open spec fn same_value(a: Content, b: Content) -> bool
    decreases a,
{
    match a {
        Content::Str(x) => b matches Content::Str(y) && x == y,
        Content::Int(x) => b matches Content::Int(y) && x == y,
        Content::Float(x) => b matches Content::Float(y) && float_bits_eq(x, y),
        Content::Bool(x) => b matches Content::Bool(y) && x == y,
        Content::List(xs) => b matches Content::List(ys) && xs.len() == ys.len() && forall|i: int|
            0 <= i < xs.len() ==> same_value(#[trigger] xs[i], ys[i]),
        Content::Table(xm) => b matches Content::Table(ym) && xm.dom() == ym.dom() && forall|
            k: Seq<char>,
        | xm.contains_key(k) ==> same_value(#[trigger] xm[k], ym[k]),
        Content::Null => b is Null,
    }
}

fn float_equal(a: u64, b: u64) -> (r: bool)
    ensures
        r == float_bits_eq(a, b),
{
    let a_nan = (a & 0x7ff0_0000_0000_0000u64) == 0x7ff0_0000_0000_0000u64 && (a
        & 0x000f_ffff_ffff_ffffu64) != 0;
    let b_nan = (b & 0x7ff0_0000_0000_0000u64) == 0x7ff0_0000_0000_0000u64 && (b
        & 0x000f_ffff_ffff_ffffu64) != 0;
    !a_nan && !b_nan && (a == b || ((a | b) & 0x7fff_ffff_ffff_ffffu64) == 0)
}

fn values_equal(a: &ConfigValue, b: &ConfigValue) -> (r: bool)
    ensures
        r == same_value(a@, b@),
    decreases a,
{
    match (a, b) {
        (ConfigValue::String(x), ConfigValue::String(y)) => str_equal(x.as_str(), y.as_str()),
        (ConfigValue::Integer(x), ConfigValue::Integer(y)) => *x == *y,
        (ConfigValue::Float(x), ConfigValue::Float(y)) => float_equal(*x, *y),
        (ConfigValue::Boolean(x), ConfigValue::Boolean(y)) => *x == *y,
        (ConfigValue::Array(xs), ConfigValue::Array(ys)) => lists_equal(xs, ys),
        (ConfigValue::Table(xm), ConfigValue::Table(ym)) => maps_equal(xm, ym),
        (ConfigValue::Null, ConfigValue::Null) => true,
        _ => false,
    }
}

fn lists_equal(xs: &Vec<ConfigValue>, ys: &Vec<ConfigValue>) -> (r: bool)
    ensures
        r == same_value(Content::List(list_model(xs@)), Content::List(list_model(ys@))),
    decreases xs,
{
    proof {
        lemma_list_model(xs@);
        lemma_list_model(ys@);
    }
    if xs.len() != ys.len() {
        return false;
    }
    let n = xs.len();
    let mut i: usize = 0;
    while i < n
        invariant
            n == xs@.len(),
            n == ys@.len(),
            i <= n,
            list_model(xs@).len() == n,
            list_model(ys@).len() == n,
            forall|j: int| 0 <= j < n ==> #[trigger] list_model(xs@)[j] == value_model(xs@[j]),
            forall|j: int| 0 <= j < n ==> #[trigger] list_model(ys@)[j] == value_model(ys@[j]),
            forall|j: int|
                0 <= j < i ==> same_value(#[trigger] list_model(xs@)[j], list_model(ys@)[j]),
        decreases n - i,
    {
        if !values_equal(&xs[i], &ys[i]) {
            assert(!same_value(list_model(xs@)[i as int], list_model(ys@)[i as int]));
            return false;
        }
        i = i + 1;
    }
    true
}

fn maps_equal(xm: &ConfigMap, ym: &ConfigMap) -> (r: bool)
    ensures
        r == same_value(Content::Table(xm@), Content::Table(ym@)),
    decreases xm,
{
    proof {
        use_type_invariant(xm);
        use_type_invariant(ym);
        lemma_entries_model(xm.entries@);
        lemma_entries_model(ym.entries@);
    }
    if xm.entries.len() != ym.entries.len() {
        assert(xm@.dom() != ym@.dom());
        return false;
    }
    let n = xm.entries.len();
    let mut i: usize = 0;
    while i < n
        invariant
            n == xm.entries@.len(),
            i <= n,
            keys_unique(xm.entries@),
            keys_unique(ym.entries@),
            xm@ == entries_model(xm.entries@),
            ym@ == entries_model(ym.entries@),
            forall|j: int|
                0 <= j < i ==> ym@.contains_key(#[trigger] xm.entries@[j].0@) && same_value(
                    xm@[xm.entries@[j].0@],
                    ym@[xm.entries@[j].0@],
                ),
        decreases n - i,
    {
        proof {
            lemma_entries_model(xm.entries@);
        }
        match ym.get(xm.entries[i].0.as_str()) {
            None => {
                assert(xm@.contains_key(xm.entries@[i as int].0@));
                return false;
            },
            Some(w) => {
                if !values_equal(&xm.entries[i].1, w) {
                    assert(xm@[xm.entries@[i as int].0@] == value_model(xm.entries@[i as int].1));
                    return false;
                }
            },
        }
        i = i + 1;
    }
    proof {
        lemma_entries_model(xm.entries@);
        lemma_entries_model(ym.entries@);
        assert(xm@.dom().subset_of(ym@.dom())) by {
            assert forall|k: Seq<char>| xm@.dom().contains(k) implies ym@.dom().contains(k) by {
                let j = choose|j: int| 0 <= j < n && xm.entries@[j].0@ == k;
                assert(ym@.contains_key(xm.entries@[j].0@));
            }
        }
        vstd::set_lib::lemma_subset_equality(xm@.dom(), ym@.dom());
        assert forall|k: Seq<char>| xm@.contains_key(k) implies same_value(
            #[trigger] xm@[k],
            ym@[k],
        ) by {
            let j = choose|j: int| 0 <= j < n && xm.entries@[j].0@ == k;
            assert(ym@.contains_key(xm.entries@[j].0@));
        }
    }
    true
}

impl PartialEq for ConfigValue {
    fn eq(&self, other: &Self) -> (r: bool) {
        values_equal(self, other)
    }
}

impl vstd::std_specs::cmp::PartialEqSpecImpl for ConfigValue {
    open spec fn obeys_eq_spec() -> bool {
        true
    }

    open spec fn eq_spec(&self, other: &Self) -> bool {
        same_value(self@, other@)
    }
}

impl PartialEq for ConfigMap {
    fn eq(&self, other: &Self) -> (r: bool) {
        maps_equal(self, other)
    }
}

impl vstd::std_specs::cmp::PartialEqSpecImpl for ConfigMap {
    open spec fn obeys_eq_spec() -> bool {
        true
    }

    open spec fn eq_spec(&self, other: &Self) -> bool {
        same_value(Content::Table(self@), Content::Table(other@))
    }
}

fn copy_value(v: &ConfigValue) -> (r: ConfigValue)
    ensures
        r@ == v@,
    decreases v,
{
    match v {
        ConfigValue::String(s) => ConfigValue::String(s.clone()),
        ConfigValue::Integer(i) => ConfigValue::Integer(*i),
        ConfigValue::Float(b) => ConfigValue::Float(*b),
        ConfigValue::Boolean(b) => ConfigValue::Boolean(*b),
        ConfigValue::Array(items) => ConfigValue::Array(copy_list(items)),
        ConfigValue::Table(m) => ConfigValue::Table(copy_map(m)),
        ConfigValue::Null => ConfigValue::Null,
    }
}

fn copy_list(items: &Vec<ConfigValue>) -> (r: Vec<ConfigValue>)
    ensures
        list_model(r@) == list_model(items@),
    decreases items,
{
    let n = items.len();
    let mut out: Vec<ConfigValue> = Vec::new();
    let mut i: usize = 0;
    while i < n
        invariant
            n == items@.len(),
            i <= n,
            out@.len() == i,
            forall|j: int| 0 <= j < i ==> #[trigger] value_model(out@[j]) == value_model(items@[j]),
        decreases n - i,
    {
        out.push(copy_value(&items[i]));
        i = i + 1;
    }
    proof {
        lemma_list_model(items@);
        lemma_list_model(out@);
        assert(list_model(out@) =~= list_model(items@));
    }
    out
}

fn copy_map(m: &ConfigMap) -> (r: ConfigMap)
    ensures
        r@ == m@,
    decreases m,
{
    proof {
        use_type_invariant(m);
    }
    let n = m.entries.len();
    let mut out: Vec<(String, ConfigValue)> = Vec::new();
    let mut i: usize = 0;
    while i < n
        invariant
            n == m.entries@.len(),
            i <= n,
            out@.len() == i,
            forall|j: int|
                0 <= j < i ==> #[trigger] out@[j].0@ == m.entries@[j].0@ && value_model(out@[j].1)
                    == value_model(m.entries@[j].1),
        decreases n - i,
    {
        let key = m.entries[i].0.clone();
        let value = copy_value(&m.entries[i].1);
        out.push((key, value));
        i = i + 1;
    }
    proof {
        let a = m.entries@;
        let b = out@;
        assert(keys_unique(b)) by {
            assert forall|x: int, y: int|
                0 <= x < b.len() && 0 <= y < b.len() && x != y implies #[trigger] b[x].0@
                != #[trigger] b[y].0@ by {
                assert(a[x].0@ != a[y].0@);
            }
        }
        lemma_entries_model(a);
        lemma_entries_model(b);
        assert(entries_model(b) =~= entries_model(a)) by {
            assert forall|k: Seq<char>|
                #[trigger] entries_model(b).contains_key(k) == entries_model(a).contains_key(k) by {
                if exists|j: int| 0 <= j < a.len() && a[j].0@ == k {
                    let j = choose|j: int| 0 <= j < a.len() && a[j].0@ == k;
                    assert(b[j].0@ == k);
                }
                if exists|j: int| 0 <= j < b.len() && b[j].0@ == k {
                    let j = choose|j: int| 0 <= j < b.len() && b[j].0@ == k;
                    assert(a[j].0@ == k);
                }
            }
            assert forall|k: Seq<char>| #[trigger] entries_model(b).contains_key(k) implies entries_model(
                b,
            )[k] == entries_model(a)[k] by {
                let j = choose|j: int| 0 <= j < b.len() && b[j].0@ == k;
                assert(entries_model(b)[b[j].0@] == value_model(b[j].1));
                assert(entries_model(a)[a[j].0@] == value_model(a[j].1));
            }
        }
    }
    ConfigMap { entries: out }
}

impl Clone for ConfigValue {
    fn clone(&self) -> (r: Self)
        ensures
            r@ == self@,
    {
        copy_value(self)
    }
}

impl Clone for ConfigMap {
    fn clone(&self) -> (r: Self)
        ensures
            r@ == self@,
    {
        copy_map(self)
    }
}

impl ConfigValue {
    /// The string held by a `String` value.
    pub fn as_str(&self) -> (r: Option<&str>)
        ensures
            match self@ {
                Content::Str(s) => r matches Some(t) && t@ == s,
                _ => r is None,
            },
    {
        match self {
            ConfigValue::String(s) => Some(s.as_str()),
            _ => None,
        }
    }

    /// The integer held by an `Integer` value.
    pub fn as_i64(&self) -> (r: Option<i64>)
        ensures
            r == match self@ {
                Content::Int(i) => Some(i),
                _ => None,
            },
    {
        match self {
            ConfigValue::Integer(i) => Some(*i),
            _ => None,
        }
    }

    /// The boolean held by a `Boolean` value.
    pub fn as_bool(&self) -> (r: Option<bool>)
        ensures
            r == match self@ {
                Content::Bool(b) => Some(b),
                _ => None,
            },
    {
        match self {
            ConfigValue::Boolean(b) => Some(*b),
            _ => None,
        }
    }

    /// Whether the value is `Null`.
    pub fn is_null(&self) -> (r: bool)
        ensures
            r == (self@ is Null),
    {
        match self {
            ConfigValue::Null => true,
            _ => false,
        }
    }
}

impl From<String> for ConfigValue {
    fn from(s: String) -> (r: ConfigValue) {
        ConfigValue::String(s)
    }
}

impl vstd::std_specs::convert::FromSpecImpl<String> for ConfigValue {
    open spec fn obeys_from_spec() -> bool {
        true
    }

    open spec fn from_spec(s: String) -> ConfigValue {
        ConfigValue::String(s)
    }
}

impl From<i64> for ConfigValue {
    fn from(i: i64) -> (r: ConfigValue) {
        ConfigValue::Integer(i)
    }
}

impl vstd::std_specs::convert::FromSpecImpl<i64> for ConfigValue {
    open spec fn obeys_from_spec() -> bool {
        true
    }

    open spec fn from_spec(i: i64) -> ConfigValue {
        ConfigValue::Integer(i)
    }
}

impl From<bool> for ConfigValue {
    fn from(b: bool) -> (r: ConfigValue) {
        ConfigValue::Boolean(b)
    }
}

impl vstd::std_specs::convert::FromSpecImpl<bool> for ConfigValue {
    open spec fn obeys_from_spec() -> bool {
        true
    }

    open spec fn from_spec(b: bool) -> ConfigValue {
        ConfigValue::Boolean(b)
    }
}

impl<'a> From<&'a str> for ConfigValue {
    fn from(s: &'a str) -> (r: ConfigValue)
        ensures
            r@ == Content::Str(s@),
    {
        ConfigValue::String(s.to_owned())
    }
}

/// The value made from a string slice is a `String` value holding its
/// characters. Verus has no way to build a `String` from its characters in
/// spec code, so this picks one such value, and the general law of `From`
/// is not claimed for it (`obeys_from_spec` is false); the `from` above
/// states its result by its content instead.
impl<'a> vstd::std_specs::convert::FromSpecImpl<&'a str> for ConfigValue {
    open spec fn obeys_from_spec() -> bool {
        false
    }

    open spec fn from_spec(s: &'a str) -> ConfigValue {
        ConfigValue::String(choose|t: String| t@ == s@)
    }
}


/// Equality of configuration values is symmetric.
pub proof fn law_same_value_symmetric(a: Content, b: Content)
    ensures
        same_value(a, b) == same_value(b, a),
    decreases a,
{
    match a {
        Content::List(xs) => {
            if let Content::List(ys) = b {
                if xs.len() == ys.len() {
                    assert forall|i: int| 0 <= i < xs.len() implies same_value(#[trigger] xs[i], ys[i])
                        == same_value(ys[i], xs[i]) by {
                        law_same_value_symmetric(xs[i], ys[i]);
                    }
                }
            }
        },
        Content::Table(xm) => {
            if let Content::Table(ym) = b {
                if xm.dom() == ym.dom() {
                    assert forall|k: Seq<char>| xm.contains_key(k) implies same_value(
                        #[trigger] xm[k],
                        ym[k],
                    ) == same_value(ym[k], xm[k]) by {
                        law_same_value_symmetric(xm[k], ym[k]);
                    }
                }
            }
        },
        Content::Float(x) => {
            if let Content::Float(y) = b {
                assert(float_bits_eq(x, y) == float_bits_eq(y, x)) by (bit_vector);
            }
        },
        _ => {},
    }
}

/// Whether the bit pattern is that of a NaN.
pub open spec fn is_nan_bits(b: u64) -> bool {
    (b & 0x7ff0_0000_0000_0000u64) == 0x7ff0_0000_0000_0000u64 && (b & 0x000f_ffff_ffff_ffffu64)
        != 0
}

/// Whether no float anywhere in the value is a NaN.
pub open spec fn free_of_nan(v: Content) -> bool
    decreases v,
{
    match v {
        Content::Float(b) => !is_nan_bits(b),
        Content::List(xs) => forall|i: int| 0 <= i < xs.len() ==> free_of_nan(#[trigger] xs[i]),
        Content::Table(m) => forall|k: Seq<char>| m.contains_key(k) ==> free_of_nan(#[trigger] m[k]),
        _ => true,
    }
}

/// A value in which no float is a NaN equals itself (a NaN equals nothing).
pub proof fn law_same_value_reflexive(v: Content)
    requires
        free_of_nan(v),
    ensures
        same_value(v, v),
    decreases v,
{
    match v {
        Content::List(xs) => {
            assert forall|i: int| 0 <= i < xs.len() implies same_value(#[trigger] xs[i], xs[i]) by {
                law_same_value_reflexive(xs[i]);
            }
        },
        Content::Table(m) => {
            assert forall|k: Seq<char>| m.contains_key(k) implies same_value(#[trigger] m[k], m[k]) by {
                law_same_value_reflexive(m[k]);
            }
        },
        Content::Float(b) => {
            assert(!is_nan_bits(b) ==> float_bits_eq(b, b)) by (bit_vector);
        },
        _ => {},
    }
}

/// Equality of configuration values tells scalars apart by value: two
/// strings, integers or booleans are equal exactly when they are the same,
/// and null equals null.
pub proof fn law_same_value_scalars(s: Seq<char>, t: Seq<char>, i: i64, j: i64, x: bool, y: bool)
    ensures
        same_value(Content::Str(s), Content::Str(t)) <==> s == t,
        same_value(Content::Int(i), Content::Int(j)) <==> i == j,
        same_value(Content::Bool(x), Content::Bool(y)) <==> x == y,
        same_value(Content::Null, Content::Null),
{
}

/// Floats are equal as IEEE 754 numbers: a NaN equals nothing, a number
/// that is not a NaN equals itself, and two different bit patterns are equal
/// only where both are zeros (of either sign).
pub proof fn law_same_value_floats(a: u64, b: u64)
    ensures
        is_nan_bits(a) ==> !same_value(Content::Float(a), Content::Float(b)),
        is_nan_bits(b) ==> !same_value(Content::Float(a), Content::Float(b)),
        !is_nan_bits(a) ==> same_value(Content::Float(a), Content::Float(a)),
        same_value(Content::Float(a), Content::Float(b)) && a != b ==> (a
            & 0x7fff_ffff_ffff_ffffu64) == 0 && (b & 0x7fff_ffff_ffff_ffffu64) == 0,
        (a & 0x7fff_ffff_ffff_ffffu64) == 0 && (b & 0x7fff_ffff_ffff_ffffu64) == 0 ==> same_value(
            Content::Float(a),
            Content::Float(b),
        ),
{
    assert(is_nan_bits(a) ==> !float_bits_eq(a, b)) by (bit_vector);
    assert(is_nan_bits(b) ==> !float_bits_eq(a, b)) by (bit_vector);
    assert(!is_nan_bits(a) ==> float_bits_eq(a, a)) by (bit_vector);
    assert(float_bits_eq(a, b) && a != b ==> (a & 0x7fff_ffff_ffff_ffffu64) == 0 && (b
        & 0x7fff_ffff_ffff_ffffu64) == 0) by (bit_vector);
    assert((a & 0x7fff_ffff_ffff_ffffu64) == 0 && (b & 0x7fff_ffff_ffff_ffffu64) == 0
        ==> float_bits_eq(a, b)) by (bit_vector);
}

/// The kind of a content: which of its variants it is.
pub open spec fn content_kind(c: Content) -> int {
    match c {
        Content::Str(_) => 0,
        Content::Int(_) => 1,
        Content::Float(_) => 2,
        Content::Bool(_) => 3,
        Content::List(_) => 4,
        Content::Table(_) => 5,
        Content::Null => 6,
    }
}

/// Values of different kinds are never equal: an integer never equals a
/// float, a string or a boolean, and so on.
pub proof fn law_same_value_same_kind(a: Content, b: Content)
    ensures
        same_value(a, b) ==> content_kind(a) == content_kind(b),
{
}

/// Lists are equal when they have the same length and are equal element by
/// element; tables when they have the same keys and are equal key by key.
pub proof fn law_same_value_collections(
    xs: Seq<Content>,
    ys: Seq<Content>,
    xm: Map<Seq<char>, Content>,
    ym: Map<Seq<char>, Content>,
)
    ensures
        same_value(Content::List(xs), Content::List(ys)) <==> xs.len() == ys.len() && forall|i: int|
            0 <= i < xs.len() ==> same_value(#[trigger] xs[i], ys[i]),
        same_value(Content::Table(xm), Content::Table(ym)) <==> xm.dom() == ym.dom() && forall|
            k: Seq<char>,
        | xm.contains_key(k) ==> same_value(#[trigger] xm[k], ym[k]),
{
}

/// Each configuration value has the content of its payload: a string its
/// characters, an integer, a float's bits and a boolean themselves, an array
/// the contents of its elements in order, a table its map, null null.
pub proof fn law_value_content(s: String, i: i64, f: u64, b: bool, items: Vec<ConfigValue>, m: ConfigMap)
    ensures
        ConfigValue::String(s)@ == Content::Str(s@),
        ConfigValue::Integer(i)@ == Content::Int(i),
        ConfigValue::Float(f)@ == Content::Float(f),
        ConfigValue::Boolean(b)@ == Content::Bool(b),
        ConfigValue::Table(m)@ == Content::Table(m@),
        ConfigValue::Null@ == Content::Null,
        ConfigValue::Array(items)@ matches Content::List(l) && l.len() == items@.len() && forall|
            k: int,
        | 0 <= k < items@.len() ==> #[trigger] l[k] == items@[k]@,
{
    lemma_list_model(items@);
}

/// A key reads back the value last stored under it, and storing under one
/// key leaves every other key as it was.
pub proof fn law_get_after_insert(
    before: Map<Seq<char>, Content>,
    key: Seq<char>,
    value: Content,
    other: Seq<char>,
)
    ensures
        before.insert(key, value).contains_key(key),
        before.insert(key, value)[key] == value,
        other != key ==> before.insert(key, value).contains_key(other) == before.contains_key(other),
        other != key && before.contains_key(other) ==> before.insert(key, value)[other]
            == before[other],
{
}

/// Storing under two different keys gives the same content in either order.
pub proof fn law_insert_order_irrelevant(
    before: Map<Seq<char>, Content>,
    k1: Seq<char>,
    v1: Content,
    k2: Seq<char>,
    v2: Content,
)
    requires
        k1 != k2,
    ensures
        before.insert(k1, v1).insert(k2, v2) == before.insert(k2, v2).insert(k1, v1),
{
    assert(before.insert(k1, v1).insert(k2, v2) =~= before.insert(k2, v2).insert(k1, v1));
}

} // verus!
