//! The configuration that the watcher holds, and how reads and changes of
//! the sources update it.

use vstd::prelude::*;
use crate::ConfigError;
use crate::value::{ConfigMap, ConfigValue, Content};

verus! {

/// The declaration of `std::time::Instant`, which a `ConfigUpdate` carries.
#[verifier::external_type_specification]
#[verifier::external_body]
pub struct ExInstant(std::time::Instant);

/// A configuration update notification.
#[derive(Debug)]
pub struct ConfigUpdate {
    /// The name of the source that changed.
    pub source: String,
    /// The updated configuration values.
    pub values: ConfigMap,
    /// Timestamp of the update.
    pub timestamp: std::time::Instant,
}

impl Clone for ConfigUpdate {
    fn clone(&self) -> (r: Self)
        ensures
            r.source@ == self.source@,
            r.values@ == self.values@,
            r.timestamp == self.timestamp,
    {
        ConfigUpdate {
            source: self.source.clone(),
            values: self.values.clone(),
            timestamp: self.timestamp,
        }
    }
}

/// The configuration that results from reading sources in order into
/// `base`: each successful read stores its values over what was there, and a
/// failed read changes nothing.
pub open spec fn merge_reads(
    base: Map<Seq<char>, Content>,
    reads: Seq<Result<ConfigMap, ConfigError>>,
) -> Map<Seq<char>, Content>
    decreases reads.len(),
{
    if reads.len() == 0 {
        base
    } else {
        let before = merge_reads(base, reads.drop_last());
        match reads.last() {
            Ok(values) => before.union_prefer_right(values@),
            Err(_) => before,
        }
    }
}

/// The current configuration of a watcher: every key with the value that
/// the last source to provide it gave.
pub struct ConfigState {
    config: ConfigMap,
}

impl View for ConfigState {
    type V = Map<Seq<char>, Content>;

    closed spec fn view(&self) -> Map<Seq<char>, Content> {
        self.config@
    }
}

impl ConfigState {
    /// An empty configuration.
    pub fn new() -> (r: ConfigState)
        ensures
            r@ == Map::<Seq<char>, Content>::empty(),
    {
        ConfigState { config: ConfigMap::new() }
    }

    /// A copy of all current configuration values.
    pub fn get_config(&self) -> (r: ConfigMap)
        ensures
            r@ == self@,
    {
        self.config.clone()
    }

    /// A copy of the value of `key`, if it has one.
    pub fn get(&self, key: &str) -> (r: Option<ConfigValue>)
        ensures
            match r {
                Some(v) => self@.contains_key(key@) && v@ == self@[key@],
                None => !self@.contains_key(key@),
            },
    {
        match self.config.get(key) {
            Some(v) => Some(v.clone()),
            None => None,
        }
    }

    /// Stores the values of every successful read, in order, over the
    /// current configuration; failed reads are passed over.
    pub fn load(&mut self, reads: &Vec<Result<ConfigMap, ConfigError>>)
        ensures
            final(self)@ == merge_reads(old(self)@, reads@),
    {
        let ghost base = self@;
        let n = reads.len();
        let mut i: usize = 0;
        while i < n
            invariant
                n == reads@.len(),
                i <= n,
                self@ == merge_reads(base, reads@.take(i as int)),
            decreases n - i,
        {
            assert(reads@.take(i + 1).drop_last() =~= reads@.take(i as int));
            match &reads[i] {
                Ok(values) => self.config.merge(values),
                Err(_) => {},
            }
            i = i + 1;
        }
        assert(reads@.take(n as int) =~= reads@);
    }

    /// Replaces the configuration with what the reads give, in order, from
    /// nothing; failed reads are passed over.
    pub fn refresh(&mut self, reads: &Vec<Result<ConfigMap, ConfigError>>)
        ensures
            final(self)@ == merge_reads(Map::empty(), reads@),
    {
        let mut fresh = ConfigState::new();
        fresh.load(reads);
        *self = fresh;
    }

    /// Stores the values that a changed source gave over the configuration,
    /// and makes the update that tells subscribers of them.
    pub fn apply_change(
        &mut self,
        source: &str,
        values: ConfigMap,
        timestamp: std::time::Instant,
    ) -> (r: ConfigUpdate)
        ensures
            final(self)@ == old(self)@.union_prefer_right(values@),
            r.source@ == source@,
            r.values@ == values@,
            r.timestamp == timestamp,
    {
        self.config.merge(&values);
        ConfigUpdate { source: source.to_owned(), values, timestamp }
    }
}

/// The position of the last successful read among `reads` that provides
/// `key`, or -1 where none does.
pub open spec fn last_provider(reads: Seq<Result<ConfigMap, ConfigError>>, key: Seq<char>) -> int
    decreases reads.len(),
{
    if reads.len() == 0 {
        -1
    } else if reads.last() matches Ok(values) && values@.contains_key(key) {
        reads.len() - 1
    } else {
        last_provider(reads.drop_last(), key)
    }
}

/// After the sources have been read in order into a configuration, a key
/// has the value that the last source to provide it gave, and a key that no
/// source provides keeps what it had before.
pub proof fn law_last_source_wins(
    base: Map<Seq<char>, Content>,
    reads: Seq<Result<ConfigMap, ConfigError>>,
    key: Seq<char>,
)
    ensures
        last_provider(reads, key) == -1 ==> {
            &&& merge_reads(base, reads).contains_key(key) == base.contains_key(key)
            &&& base.contains_key(key) ==> merge_reads(base, reads)[key] == base[key]
        },
        last_provider(reads, key) != -1 ==> {
            let j = last_provider(reads, key);
            &&& 0 <= j < reads.len()
            &&& reads[j] matches Ok(values) && values@.contains_key(key)
                && merge_reads(base, reads).contains_key(key) && merge_reads(base, reads)[key]
                == values@[key]
        },
    decreases reads.len(),
{
    if reads.len() > 0 {
        law_last_source_wins(base, reads.drop_last(), key);
    }
}

/// Refreshing gives the same configuration whatever the configuration was
/// before: a key is present exactly where some successful read provides it.
pub proof fn law_refresh_forgets(reads: Seq<Result<ConfigMap, ConfigError>>, key: Seq<char>)
    ensures
        merge_reads(Map::empty(), reads).contains_key(key) <==> last_provider(reads, key) != -1,
{
    law_last_source_wins(Map::empty(), reads, key);
}

/// Applying the same change twice leaves the configuration as applying it
/// once does.
pub proof fn law_change_idempotent(config: Map<Seq<char>, Content>, values: Map<Seq<char>, Content>)
    ensures
        config.union_prefer_right(values).union_prefer_right(values) == config.union_prefer_right(
            values,
        ),
{
    assert(config.union_prefer_right(values).union_prefer_right(values) =~= config.union_prefer_right(
        values,
    ));
}

/// After a change, each key that the changed source gave reads back its
/// value, and every other key keeps its value.
pub proof fn law_change_visible(
    config: Map<Seq<char>, Content>,
    values: Map<Seq<char>, Content>,
    key: Seq<char>,
)
    ensures
        values.contains_key(key) ==> config.union_prefer_right(values).contains_key(key)
            && config.union_prefer_right(values)[key] == values[key],
        !values.contains_key(key) ==> config.union_prefer_right(values).contains_key(key)
            == config.contains_key(key) && (config.contains_key(key) ==> config.union_prefer_right(
            values,
        )[key] == config[key]),
{
}

} // verus!
