//! Which file names count as JSON.
//!
//! A name counts when its lower-case form ends in `.json`; `DATA.JSON` and
//! `.json` count, `json` and `a.json.bak` do not.

use vstd::prelude::*;
use vstd::string::StrSliceExecFns;

verus! {

/// The lower-case form of a string, as `str::to_lowercase` gives it: the
/// Unicode mapping, which no contract here spells out.
pub uninterp spec fn lowercase(s: Seq<char>) -> Seq<char>;

/// The extension of a JSON file, dot included.
pub open spec fn json_suffix() -> Seq<char> {
    seq!['.', 'j', 's', 'o', 'n']
}

/// `lowered` ends in `.json`.
pub open spec fn ends_in_json(lowered: Seq<char>) -> bool {
    json_suffix().is_suffix_of(lowered)
}

/// `name` is the name of a JSON file, whatever the case of its letters.
pub open spec fn json_name(name: Seq<char>) -> bool {
    ends_in_json(lowercase(name))
}

/// Calls `str::to_lowercase`. The contract gives the result its name,
/// [`lowercase`], and claims nothing else of it.
#[verifier::external_body]
fn to_lowercase(s: &str) -> (lowered: String)
    ensures
        lowered@ == lowercase(s@),
{
    s.to_lowercase()
}

/// Whether `lowered`, a name already in lower case, ends in `.json`.
pub fn has_json_suffix(lowered: &str) -> (r: bool)
    ensures
        r == ends_in_json(lowered@),
{
    let n = lowered.unicode_len();
    if n < 5 {
        return false;
    }
    let r = lowered.get_char(n - 5) == '.' && lowered.get_char(n - 4) == 'j' && lowered.get_char(
        n - 3,
    ) == 's' && lowered.get_char(n - 2) == 'o' && lowered.get_char(n - 1) == 'n';
    r
}

/// Whether a file of this name is a JSON file.
pub fn is_json_name(name: &str) -> (r: bool)
    ensures
        r == json_name(name@),
{
    let lowered = to_lowercase(name);
    has_json_suffix(lowered.as_str())
}

} // verus!
