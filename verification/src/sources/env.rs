//! Configuration read from environment variables.
//!
//! A variable whose name is the prefix, the separator and a rest gives the
//! configuration key that is the rest in lower case: with the prefix `MYAPP`
//! and the separator `__`, the variable `MYAPP__DB__HOST` gives the key
//! `db__host`. Its value is read as a boolean, an integer, a float or else a
//! string.

use vstd::prelude::*;
use crate::text::{
    ascii_lower_code,
    decimal_i64,
    decimal_text,
    is_digit,
    law_decimal_round_trip,
    lemma_digits_of,
    eq_ignore_ascii_case,
    eq_ignoring_ascii_case,
    lowercase,
    parse_i64,
    starts_with,
    to_lowercase,
};
use crate::value::{free_of_nan, law_same_value_reflexive, same_value, ConfigMap, ConfigValue, Content};

verus! {

/// One environment variable as the process sees it.
pub struct EnvVar {
    pub name: String,
    pub value: String,
    /// What `str::parse::<f64>` gives for `value`, as the IEEE 754 bit
    /// pattern of the number.
    pub float_bits: Option<u64>,
}

/// A configuration source that reads environment variables whose names
/// start with a prefix and a separator.
pub struct EnvSource {
    prefix: String,
    separator: String,
    last_values: ConfigMap,
    changed: bool,
}

/// The state of an [`EnvSource`].
pub struct EnvModel {
    pub prefix: Seq<char>,
    pub separator: Seq<char>,
    /// The values of the last read that differed from the one before it.
    pub last_values: Map<Seq<char>, Content>,
    /// Whether the last read found values that differ from those recorded
    /// before it.
    pub changed: bool,
}

impl View for EnvSource {
    type V = EnvModel;

    closed spec fn view(&self) -> EnvModel {
        EnvModel {
            prefix: self.prefix@,
            separator: self.separator@,
            last_values: self.last_values@,
            changed: self.changed,
        }
    }
}

/// The configuration key for the variable `name`: the rest of the name after
/// the prefix and the separator, in lower case; none where the name does not
/// start with them.
pub open spec fn config_key_of(prefix: Seq<char>, separator: Seq<char>, name: Seq<char>) -> Option<
    Seq<char>,
> {
    let lead = prefix + separator;
    if lead.is_prefix_of(name) {
        Some(lowercase(name.skip(lead.len() as int)))
    } else {
        None
    }
}

/// The value that the text of a variable denotes: `true` or `false` in any
/// ASCII case, else a decimal `i64`, else the float that `float_bits` holds,
/// else the text itself.
pub open spec fn env_value(text: Seq<char>, float_bits: Option<u64>) -> Content {
    if eq_ignoring_ascii_case(text, "true"@) {
        Content::Bool(true)
    } else if eq_ignoring_ascii_case(text, "false"@) {
        Content::Bool(false)
    } else {
        match decimal_i64(text) {
            Some(i) => Content::Int(i),
            None => match float_bits {
                Some(b) => Content::Float(b),
                None => Content::Str(text),
            },
        }
    }
}

/// The configuration that a list of variables gives: each variable with a
/// key, in order, a later one overriding an earlier one with the same key.
pub open spec fn env_values(prefix: Seq<char>, separator: Seq<char>, vars: Seq<EnvVar>) -> Map<
    Seq<char>,
    Content,
>
    decreases vars.len(),
{
    if vars.len() == 0 {
        Map::empty()
    } else {
        let rest = env_values(prefix, separator, vars.drop_last());
        let v = vars.last();
        match config_key_of(prefix, separator, v.name@) {
            Some(k) => rest.insert(k, env_value(v.value@, v.float_bits)),
            None => rest,
        }
    }
}

impl EnvSource {
    /// Creates a source for the variables that start with `prefix` and the
    /// separator `_`.
    pub fn new(prefix: &str) -> (r: EnvSource)
        ensures
            r@.prefix == prefix@,
            r@.separator == seq!['_'],
            r@.last_values == Map::<Seq<char>, Content>::empty(),
            !r@.changed,
    {
        let separator = "_".to_owned();
        proof {
            reveal_strlit("_");
            assert(separator@ =~= seq!['_']);
        }
        EnvSource {
            prefix: prefix.to_owned(),
            separator,
            last_values: ConfigMap::new(),
            changed: false,
        }
    }

    /// The same source with `separator` between the prefix and the key.
    pub fn with_separator(self, separator: &str) -> (r: EnvSource)
        ensures
            r@ == (EnvModel { separator: separator@, ..self@ }),
    {
        let mut s = self;
        s.separator = separator.to_owned();
        s
    }

    /// The prefix of the variables read.
    pub fn prefix(&self) -> (r: &str)
        ensures
            r@ == self@.prefix,
    {
        self.prefix.as_str()
    }

    /// The name of the source.
    pub fn name(&self) -> (r: &str)
        ensures
            r@ == "env"@,
    {
        "env"
    }

    /// The configuration key for the variable `env_key`, if the variable
    /// belongs to this source.
    pub fn env_key_to_config_key(&self, env_key: &str) -> (r: Option<String>)
        ensures
            match config_key_of(self@.prefix, self@.separator, env_key@) {
                Some(k) => r matches Some(t) && t@ == k,
                None => r is None,
            },
    {
        let mut prefix_with_sep = self.prefix.clone();
        prefix_with_sep.append(self.separator.as_str());
        let lead = prefix_with_sep.as_str();
        let n = env_key.unicode_len();
        if starts_with(env_key, lead) {
            let key = env_key.substring_char(lead.unicode_len(), n);
            Some(to_lowercase(key))
        } else if starts_with(env_key, self.prefix.as_str()) {
            let rest = env_key.substring_char(self.prefix.as_str().unicode_len(), n);
            if starts_with(rest, self.separator.as_str()) {
                proof {
                    let p = self.prefix@;
                    let q = self.separator@;
                    assert((p + q) =~= env_key@.subrange(0, (p.len() + q.len()) as int));
                }
                let m = rest.unicode_len();
                let key = rest.substring_char(self.separator.as_str().unicode_len(), m);
                Some(to_lowercase(key))
            } else {
                proof {
                    let p = self.prefix@;
                    let q = self.separator@;
                    if (p + q).is_prefix_of(env_key@) {
                        assert(q =~= rest@.subrange(0, q.len() as int));
                    }
                }
                None
            }
        } else {
            proof {
                let p = self.prefix@;
                let q = self.separator@;
                if (p + q).is_prefix_of(env_key@) {
                    assert(p =~= env_key@.subrange(0, p.len() as int));
                }
            }
            None
        }
    }

    /// The value that the text `s` of a variable denotes, given what
    /// `str::parse::<f64>` gives for it as `float_bits`.
    pub fn parse_value(s: &str, float_bits: Option<u64>) -> (r: ConfigValue)
        ensures
            r@ == env_value(s@, float_bits),
    {
        if eq_ignore_ascii_case(s, "true") {
            return ConfigValue::Boolean(true);
        }
        if eq_ignore_ascii_case(s, "false") {
            return ConfigValue::Boolean(false);
        }
        match parse_i64(s) {
            Some(i) => ConfigValue::Integer(i),
            None => match float_bits {
                Some(b) => ConfigValue::Float(b),
                None => ConfigValue::String(s.to_owned()),
            },
        }
    }

    /// Reads the configuration from the variables `vars`, and records
    /// whether it differs from the values recorded before; those are replaced
    /// where it does.
    pub fn read_from(&mut self, vars: &Vec<EnvVar>) -> (r: ConfigMap)
        ensures
            r@ == env_values(old(self)@.prefix, old(self)@.separator, vars@),
            final(self)@.prefix == old(self)@.prefix,
            final(self)@.separator == old(self)@.separator,
            final(self)@.last_values == (if same_value(
                Content::Table(old(self)@.last_values),
                Content::Table(r@),
            ) {
                old(self)@.last_values
            } else {
                r@
            }),
            final(self)@.changed == !same_value(
                Content::Table(old(self)@.last_values),
                Content::Table(r@),
            ),
    {
        let mut values = ConfigMap::new();
        let n = vars.len();
        let mut i: usize = 0;
        while i < n
            invariant
                n == vars@.len(),
                i <= n,
                values@ == env_values(self@.prefix, self@.separator, vars@.take(i as int)),
            decreases n - i,
        {
            let var = &vars[i];
            assert(vars@.take(i + 1).drop_last() =~= vars@.take(i as int));
            match self.env_key_to_config_key(var.name.as_str()) {
                Some(key) => {
                    let value = EnvSource::parse_value(var.value.as_str(), var.float_bits);
                    values.insert(key, value);
                },
                None => {},
            }
            i = i + 1;
        }
        assert(vars@.take(n as int) =~= vars@);
        let changed = self.last_values != values;
        if changed {
            self.last_values = values.clone();
        }
        self.changed = changed;
        values
    }

    /// Reads the variables `vars` and tells whether they give values
    /// different from those recorded at the last read: whether the source
    /// has changed since then.
    pub fn has_changed(&mut self, vars: &Vec<EnvVar>) -> (r: bool)
        ensures
            r == !same_value(
                Content::Table(old(self)@.last_values),
                Content::Table(env_values(old(self)@.prefix, old(self)@.separator, vars@)),
            ),
            r == final(self)@.changed,
            final(self)@.prefix == old(self)@.prefix,
            final(self)@.separator == old(self)@.separator,
            final(self)@.last_values == (if r {
                env_values(old(self)@.prefix, old(self)@.separator, vars@)
            } else {
                old(self)@.last_values
            }),
    {
        let _ = self.read_from(vars);
        self.changed
    }
}

/// A variable gives a configuration key exactly when its name begins with
/// the prefix followed by the separator, compared case for case; the key is
/// the rest of the name, lower-cased.
pub proof fn law_config_key_needs_exact_prefix(prefix: Seq<char>, separator: Seq<char>, name: Seq<char>)
    ensures
        config_key_of(prefix, separator, name) is Some <==> (prefix + separator).is_prefix_of(name),
        config_key_of(prefix, separator, name) is Some ==> config_key_of(prefix, separator, name)->0
            == lowercase(name.skip((prefix.len() + separator.len()) as int)),
        name.len() < prefix.len() + separator.len() ==> config_key_of(prefix, separator, name) is None,
{
}

/// How the text of a variable is read: `true` and `false` in any ASCII case
/// are booleans; other text that is a decimal `i64` is that integer; other
/// text is the float the float parse gave, if it gave one; and any other
/// text is kept as a string, character for character.
pub proof fn law_env_value_kinds(text: Seq<char>, float_bits: Option<u64>)
    ensures
        eq_ignoring_ascii_case(text, "true"@) ==> env_value(text, float_bits) == Content::Bool(true),
        eq_ignoring_ascii_case(text, "false"@) ==> env_value(text, float_bits) == Content::Bool(
            false,
        ),
        env_value(text, float_bits) matches Content::Bool(b) ==> eq_ignoring_ascii_case(
            text,
            if b {
                "true"@
            } else {
                "false"@
            },
        ),
        env_value(text, float_bits) matches Content::Int(i) ==> decimal_i64(text) == Some(i),
        env_value(text, float_bits) matches Content::Float(f) ==> float_bits == Some(f),
        env_value(text, float_bits) matches Content::Str(t) ==> t == text && float_bits is None,
        env_value(text, float_bits) is Bool || env_value(text, float_bits) is Int || env_value(
            text,
            float_bits,
        ) is Float || env_value(text, float_bits) is Str,
        !eq_ignoring_ascii_case(text, "true"@) && !eq_ignoring_ascii_case(text, "false"@)
            && decimal_i64(text) is None ==> env_value(text, float_bits) == match float_bits {
            Some(f) => Content::Float(f),
            None => Content::Str(text),
        },
{
    reveal_strlit("true");
    reveal_strlit("false");
    if eq_ignoring_ascii_case(text, "true"@) {
        assert(!eq_ignoring_ascii_case(text, "false"@));
    }
}

proof fn lemma_env_values_keys(prefix: Seq<char>, separator: Seq<char>, vars: Seq<EnvVar>, k: Seq<char>)
    ensures
        env_values(prefix, separator, vars).contains_key(k) <==> exists|i: int|
            0 <= i < vars.len() && config_key_of(prefix, separator, (#[trigger] vars[i]).name@)
                == Some(k),
    decreases vars.len(),
{
    if vars.len() > 0 {
        let rest = vars.drop_last();
        lemma_env_values_keys(prefix, separator, rest, k);
        if env_values(prefix, separator, rest).contains_key(k) {
            let i = choose|i: int|
                0 <= i < rest.len() && config_key_of(prefix, separator, (#[trigger] rest[i]).name@)
                    == Some(k);
            assert(vars[i] == rest[i]);
        }
        if exists|i: int|
            0 <= i < vars.len() && config_key_of(prefix, separator, (#[trigger] vars[i]).name@)
                == Some(k) {
            let i = choose|i: int|
                0 <= i < vars.len() && config_key_of(prefix, separator, (#[trigger] vars[i]).name@)
                    == Some(k);
            if i < vars.len() - 1 {
                assert(rest[i] == vars[i]);
            }
        }
    }
}

proof fn lemma_env_values_last(prefix: Seq<char>, separator: Seq<char>, vars: Seq<EnvVar>, i: int)
    requires
        0 <= i < vars.len(),
        config_key_of(prefix, separator, vars[i].name@) is Some,
        forall|j: int|
            i < j < vars.len() ==> config_key_of(prefix, separator, (#[trigger] vars[j]).name@)
                != config_key_of(prefix, separator, vars[i].name@),
    ensures
        env_values(prefix, separator, vars).contains_key(
            config_key_of(prefix, separator, vars[i].name@)->0,
        ),
        env_values(prefix, separator, vars)[config_key_of(prefix, separator, vars[i].name@)->0]
            == env_value(vars[i].value@, vars[i].float_bits),
    decreases vars.len(),
{
    if i < vars.len() - 1 {
        let rest = vars.drop_last();
        assert(rest[i] == vars[i]);
        assert(config_key_of(prefix, separator, vars[vars.len() - 1].name@) != config_key_of(
            prefix,
            separator,
            vars[i].name@,
        ));
        lemma_env_values_last(prefix, separator, rest, i);
    }
}

/// The keys of the configuration read from variables are exactly the keys
/// that the variables' names give.
pub proof fn law_env_values_keys(prefix: Seq<char>, separator: Seq<char>, vars: Seq<EnvVar>, k: Seq<char>)
    ensures
        env_values(prefix, separator, vars).contains_key(k) <==> exists|i: int|
            0 <= i < vars.len() && config_key_of(prefix, separator, (#[trigger] vars[i]).name@)
                == Some(k),
{
    lemma_env_values_keys(prefix, separator, vars, k);
}

/// The key of a variable that no later variable gives holds the value read
/// from that variable's text: the last variable with a key wins.
pub proof fn law_env_values_last_wins(prefix: Seq<char>, separator: Seq<char>, vars: Seq<EnvVar>, i: int)
    requires
        0 <= i < vars.len(),
        config_key_of(prefix, separator, vars[i].name@) is Some,
        forall|j: int|
            i < j < vars.len() ==> config_key_of(prefix, separator, (#[trigger] vars[j]).name@)
                != config_key_of(prefix, separator, vars[i].name@),
    ensures
        env_values(prefix, separator, vars).contains_key(
            config_key_of(prefix, separator, vars[i].name@)->0,
        ),
        env_values(prefix, separator, vars)[config_key_of(prefix, separator, vars[i].name@)->0]
            == env_value(vars[i].value@, vars[i].float_bits),
{
    lemma_env_values_last(prefix, separator, vars, i);
}

/// Reading variables that give the same values as the last read records no
/// new difference, where no value is a NaN: after one read the recorded
/// values equal those read.
pub proof fn law_reread_is_quiet(last: Map<Seq<char>, Content>, values: Map<Seq<char>, Content>)
    requires
        free_of_nan(Content::Table(values)),
    ensures
        ({
            let recorded = if same_value(Content::Table(last), Content::Table(values)) {
                last
            } else {
                values
            };
            same_value(Content::Table(recorded), Content::Table(values))
        }),
{
    law_same_value_reflexive(Content::Table(values));
}

/// The text of an integer, as `to_string` writes it, is read back as that
/// integer (never as a float), and `true` and `false` are read back as the
/// booleans, whatever the float parse gave.
pub proof fn law_parse_value_reads_back(i: i64, float_bits: Option<u64>)
    ensures
        env_value(decimal_text(i), float_bits) == Content::Int(i),
        env_value("true"@, float_bits) == Content::Bool(true),
        env_value("false"@, float_bits) == Content::Bool(false),
{
    reveal_strlit("true");
    reveal_strlit("false");
    law_decimal_round_trip(i);
    let s = decimal_text(i);
    assert(s.len() > 0 && (s[0] == '-' || is_digit(s[0]))) by {
        if i >= 0 {
            lemma_digits_of(i as nat);
        }
    }
    assert(!eq_ignoring_ascii_case(s, "true"@)) by {
        assert(ascii_lower_code(s[0]) != ascii_lower_code("true"@[0]));
    }
    assert(!eq_ignoring_ascii_case(s, "false"@)) by {
        assert(ascii_lower_code(s[0]) != ascii_lower_code("false"@[0]));
    }
}

} // verus!
