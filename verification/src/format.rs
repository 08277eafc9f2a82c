//! Format registry: classifies a path into one of the two recognized
//! container formats by its extension.  The match is a case-sensitive
//! suffix comparison, a deliberate simplification: no normalization of the
//! path is attempted.

use vstd::prelude::*;

verus! {

/// True when `suffix` is a suffix of `s`.
pub open spec fn str_suffix_matches(s: Seq<char>, suffix: Seq<char>) -> bool {
    suffix.len() <= s.len() && s.subrange(s.len() - suffix.len(), s.len() as int)
        == suffix
}

/// Case-sensitive suffix test on character sequences.
pub fn str_ends_with(s: &str, suffix: &str) -> (r: bool)
    ensures
        r == str_suffix_matches(s@, suffix@),
{
    let n = s.unicode_len();
    let k = suffix.unicode_len();
    if k > n {
        return false;
    }
    let mut i: usize = 0;
    while i < k
        invariant
            k <= n,
            n == s@.len(),
            k == suffix@.len(),
            i <= k,
            forall|j: int| 0 <= j < i ==> s@[n - k + j] == suffix@[j],
        decreases k - i,
    {
        if s.get_char(n - k + i) != suffix.get_char(i) {
            return false;
        }
        i += 1;
    }
    proof {
        assert(s@.subrange(s@.len() - k, s@.len() as int) =~= suffix@);
    }
    true
}

/// True when `prefix` is a prefix of `s`.
pub open spec fn str_prefix_matches(s: Seq<char>, prefix: Seq<char>) -> bool {
    prefix.len() <= s.len() && s.subrange(0, prefix.len() as int) == prefix
}

/// Case-sensitive prefix test on character sequences.
pub fn str_starts_with(s: &str, prefix: &str) -> (r: bool)
    ensures
        r == str_prefix_matches(s@, prefix@),
{
    let n = s.unicode_len();
    let k = prefix.unicode_len();
    if k > n {
        return false;
    }
    let mut i: usize = 0;
    while i < k
        invariant
            k <= n,
            n == s@.len(),
            k == prefix@.len(),
            i <= k,
            forall|j: int| 0 <= j < i ==> s@[j] == prefix@[j],
        decreases k - i,
    {
        if s.get_char(i) != prefix.get_char(i) {
            proof {
                assert(s@.subrange(0, k as int)[i as int] == s@[i as int]);
            }
            return false;
        }
        i += 1;
    }
    proof {
        assert(s@.subrange(0, k as int) =~= prefix@);
    }
    true
}

/// The container format recognized for a path.
#[derive(PartialEq, Eq, Structural, Clone, Copy, Debug)]
pub enum GdPropFormat {
    GdRon,
    GdBin,
    Unrecognized,
}

/// The format that `recognize_format` assigns to a path.
pub open spec fn spec_recognize_prop_format(path: Seq<char>) -> GdPropFormat {
    if str_suffix_matches(path, "gdbin"@) {
        GdPropFormat::GdBin
    } else if str_suffix_matches(path, "gdron"@) {
        GdPropFormat::GdRon
    } else {
        GdPropFormat::Unrecognized
    }
}

impl GdPropFormat {
    /// Both recognized extensions, binary first.
    pub fn get_supported_extensions() -> (r: Vec<String>)
        ensures
            r@.len() == 2,
            r@[0]@ == "gdbin"@,
            r@[1]@ == "gdron"@,
    {
        let mut v: Vec<String> = Vec::new();
        v.push(String::from_str("gdbin"));
        v.push(String::from_str("gdron"));
        v
    }

    /// Classifies `path` by suffix; an unknown suffix is `Unrecognized` and
    /// must be treated by callers as an unsupported format, never a default.
    pub fn recognize_format(path: &str) -> (r: Self)
        ensures
            r == spec_recognize_prop_format(path@),
    {
        if str_ends_with(path, GdPropFormat::GdBin.get_recognized_extension()) {
            return GdPropFormat::GdBin;
        }
        if str_ends_with(path, GdPropFormat::GdRon.get_recognized_extension()) {
            return GdPropFormat::GdRon;
        }
        GdPropFormat::Unrecognized
    }

    /// The extension associated with this format; empty for `Unrecognized`.
    pub fn get_recognized_extension(&self) -> (r: &str)
        ensures
            *self is GdRon ==> r@ == "gdron"@,
            *self is GdBin ==> r@ == "gdbin"@,
            *self is Unrecognized ==> r@ == ""@,
    {
        match self {
            GdPropFormat::GdRon => "gdron",
            GdPropFormat::GdBin => "gdbin",
            GdPropFormat::Unrecognized => "",
        }
    }
}

/// The container format recognized for a path (resource-registry variant).
#[derive(PartialEq, Eq, Structural, Clone, Copy, Debug)]
pub enum GdResFormat {
    GdRon,
    GdBin,
    Unrecognized,
}

/// The format that `GdResFormat::recognize_format` assigns to a path.
pub open spec fn spec_recognize_res_format(path: Seq<char>) -> GdResFormat {
    if str_suffix_matches(path, "gdbin"@) {
        GdResFormat::GdBin
    } else if str_suffix_matches(path, "gdron"@) {
        GdResFormat::GdRon
    } else {
        GdResFormat::Unrecognized
    }
}

impl GdResFormat {
    /// Both recognized extensions, binary first.
    pub fn get_supported_extensions() -> (r: Vec<String>)
        ensures
            r@.len() == 2,
            r@[0]@ == "gdbin"@,
            r@[1]@ == "gdron"@,
    {
        let mut v: Vec<String> = Vec::new();
        v.push(String::from_str("gdbin"));
        v.push(String::from_str("gdron"));
        v
    }

    /// Classifies `path` by suffix, as `GdPropFormat::recognize_format` does.
    pub fn recognize_format(path: &str) -> (r: Self)
        ensures
            r == spec_recognize_res_format(path@),
    {
        if str_ends_with(path, GdResFormat::GdBin.get_recognized_extension()) {
            return GdResFormat::GdBin;
        }
        if str_ends_with(path, GdResFormat::GdRon.get_recognized_extension()) {
            return GdResFormat::GdRon;
        }
        GdResFormat::Unrecognized
    }

    /// The extension associated with this format; empty for `Unrecognized`.
    pub fn get_recognized_extension(&self) -> (r: &str)
        ensures
            *self is GdRon ==> r@ == "gdron"@,
            *self is GdBin ==> r@ == "gdbin"@,
            *self is Unrecognized ==> r@ == ""@,
    {
        match self {
            GdResFormat::GdRon => "gdron",
            GdResFormat::GdBin => "gdbin",
            GdResFormat::Unrecognized => "",
        }
    }
}

} // verus!
