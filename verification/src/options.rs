//! How class names are written: the project prefix and the separator that
//! ends a modifier.

use vstd::prelude::*;

verus! {

/// Why a configuration was refused.
#[derive(Clone, Copy, Debug, PartialEq, Eq, Structural)]
pub enum ConfigurationError {
    /// The separator was empty, so no modifier could be told from a utility.
    EmptySeparator,
}

impl ConfigurationError {
    /// A sentence for the person who wrote the configuration.
    pub fn message(&self) -> (r: String)
        ensures
            r@ == "the separator must not be empty"@,
    {
        match self {
            ConfigurationError::EmptySeparator => "the separator must not be empty".to_owned(),
        }
    }
}

/// Merge options as plain values.
pub struct OptionsSpec {
    /// What may stand at the very start of a class name without belonging
    /// to it.
    pub prefix: Seq<char>,
    /// What stands between a modifier and the utility that it governs.
    pub separator: Seq<char>,
}

/// The default options: no prefix, and a colon as separator.
pub open spec fn default_options() -> OptionsSpec {
    OptionsSpec { prefix: Seq::empty(), separator: seq![':'] }
}

/// Merge options. The separator of a value of this type is never empty.
#[derive(Debug)]
pub struct MergeOptions {
    prefix: String,
    separator: String,
}

impl View for MergeOptions {
    type V = OptionsSpec;

    closed spec fn view(&self) -> OptionsSpec {
        OptionsSpec { prefix: self.prefix@, separator: self.separator@ }
    }
}

impl MergeOptions {
    #[verifier::type_invariant]
    spec fn separates(&self) -> bool {
        self.separator@.len() > 0
    }

    /// The configured prefix.
    pub fn prefix(&self) -> (r: &str)
        ensures
            r@ == self@.prefix,
    {
        self.prefix.as_str()
    }

    /// The configured separator.
    pub fn separator(&self) -> (r: &str)
        ensures
            r@ == self@.separator,
            r@.len() > 0,
    {
        proof {
            use_type_invariant(self);
        }
        self.separator.as_str()
    }
}

impl Clone for MergeOptions {
    fn clone(&self) -> (r: MergeOptions)
        ensures
            r@ == self@,
    {
        proof {
            use_type_invariant(self);
        }
        MergeOptions { prefix: self.prefix.clone(), separator: self.separator.clone() }
    }
}

impl Default for MergeOptions {
    fn default() -> (r: MergeOptions)
        ensures
            r@ == default_options(),
    {
        proof {
            reveal_strlit(":");
            assert(":"@ =~= seq![':']);
        }
        MergeOptions { prefix: String::new(), separator: ":".to_owned() }
    }
}

/// Options with the given prefix and separator. An empty prefix means that
/// class names carry none. An empty separator is refused.
pub fn configure(prefix: &str, separator: &str) -> (r: Result<MergeOptions, ConfigurationError>)
    ensures
        match r {
            Ok(options) => separator@.len() > 0 && options@.prefix == prefix@
                && options@.separator == separator@,
            Err(e) => separator@.len() == 0 && e == ConfigurationError::EmptySeparator,
        },
{
    if separator.is_empty() {
        return Err(ConfigurationError::EmptySeparator);
    }
    Ok(MergeOptions { prefix: prefix.to_owned(), separator: separator.to_owned() })
}

} // verus!
