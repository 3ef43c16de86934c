//! Named filter tabs: a key pattern and a value pattern over connection
//! statistics, compiled and matched by the `regex` crate behind trusted
//! wrappers.
use vstd::prelude::*;
use vstd::string::StrSliceExecFns;
use vstd::string::StringExecFns;
use crate::stats::{stats_model, val_text, Stats, ValModel};

verus! {

#[verifier::external_type_specification]
#[verifier::external_body]
pub struct ExRegex(regex::Regex);

#[verifier::external_type_specification]
#[verifier::external_body]
pub struct ExRegexError(regex::Error);

/// Whether `regex::Regex::new` accepts the pattern; compilation is a
/// function of the pattern text alone.
pub uninterp spec fn regex_valid(pattern: Seq<char>) -> bool;

/// The pattern text a compiled `regex::Regex` was built from.
pub uninterp spec fn regex_pattern(re: regex::Regex) -> Seq<char>;

/// Whether the pattern matches anywhere in the text; the result of
/// `regex::Regex::is_match` is a function of the pattern and the text alone.
pub uninterp spec fn regex_accepts(pattern: Seq<char>, text: Seq<char>) -> bool;

/// Relies on `regex::Regex::new`: compiles the pattern, returning `Err`
/// exactly on the patterns the crate rejects.
#[verifier::external_body]
fn regex_new(pattern: &str) -> (r: Result<regex::Regex, regex::Error>)
    ensures
        r is Ok <==> regex_valid(pattern@),
        r is Ok ==> regex_pattern(r->Ok_0) == pattern@,
{
    regex::Regex::new(pattern)
}

/// Relies on `regex::Regex::is_match`: reports whether the compiled pattern
/// matches anywhere in `text`.
#[verifier::external_body]
fn regex_is_match(re: &regex::Regex, text: &str) -> (r: bool)
    ensures
        r == regex_accepts(regex_pattern(*re), text@),
{
    re.is_match(text)
}

/// Relies on the `Display` impl of `regex::Error` for the human-readable
/// description of why a pattern failed to compile.
#[verifier::external_body]
fn regex_error_text(e: &regex::Error) -> String {
    e.to_string()
}

/// Mathematical model of a tab: its name and its two pattern texts.
pub struct TabModel {
    pub name: Seq<char>,
    pub key_pat: Seq<char>,
    pub value_pat: Seq<char>,
}

/// A named filter over a connection's statistics: the connection passes if
/// any of its key/value pairs matches both the key pattern and the value
/// pattern (the value compared via its display text).
pub struct Tab {
    pub name: String,
    key_regex: regex::Regex,
    value_regex: regex::Regex,
}

impl View for Tab {
    type V = TabModel;

    closed spec fn view(&self) -> TabModel {
        TabModel {
            name: self.name@,
            key_pat: regex_pattern(self.key_regex),
            value_pat: regex_pattern(self.value_regex),
        }
    }
}

/// Whether one key/value pair satisfies both of a tab's patterns.
pub open spec fn pair_matches(t: TabModel, p: (Seq<char>, ValModel)) -> bool {
    regex_accepts(t.key_pat, p.0) && regex_accepts(t.value_pat, val_text(p.1))
}

/// Whether a connection's statistics satisfy the tab: some pair matches.
pub open spec fn conn_matches(t: TabModel, c: Seq<(Seq<char>, ValModel)>) -> bool {
    exists|i: int| 0 <= i < c.len() && pair_matches(t, c[i])
}

/// Splitting a sequence at the first occurrence of `c`: the part before it
/// and the part after it, or nothing when `c` does not occur.
pub open spec fn split_first(s: Seq<char>, c: char) -> Option<(Seq<char>, Seq<char>)>
    decreases s.len(),
{
    if s.len() == 0 {
        None
    } else if s[0] == c {
        Some((Seq::empty(), s.drop_first()))
    } else {
        match split_first(s.drop_first(), c) {
            None => None,
            Some((before, after)) => Some((seq![s[0]] + before, after)),
        }
    }
}

proof fn lemma_split_first_at(s: Seq<char>, c: char, i: int)
    requires
        0 <= i < s.len(),
        s[i] == c,
        forall|j: int| 0 <= j < i ==> s[j] != c,
    ensures
        split_first(s, c) == Some((s.take(i), s.skip(i + 1))),
    decreases i,
{
    if i == 0 {
        assert(s.take(0) =~= Seq::<char>::empty());
        assert(s.skip(1) =~= s.drop_first());
    } else {
        let t = s.drop_first();
        assert(forall|j: int| 0 <= j < i - 1 ==> t[j] != c);
        lemma_split_first_at(t, c, i - 1);
        assert(seq![s[0]] + t.take(i - 1) =~= s.take(i));
        assert(t.skip(i) =~= s.skip(i + 1));
    }
}

proof fn lemma_split_first_none(s: Seq<char>, c: char)
    requires
        forall|j: int| 0 <= j < s.len() ==> s[j] != c,
    ensures
        split_first(s, c) is None,
    decreases s.len(),
{
    if s.len() > 0 {
        lemma_split_first_none(s.drop_first(), c);
    }
}

/// How a tab spec fails to be accepted.
pub enum TabSpecError {
    /// The spec does not have the `NAME=KEY_PATTERN:VALUE_PATTERN` shape.
    Malformed { input: String },
    /// One of the two patterns fails to compile; `message` carries the
    /// pattern crate's description of the syntax error.
    Pattern { pattern: String, message: String },
}

/// What `Tab::parse` must return for input `s`, except for the free-form
/// syntax-error message: split on the first `=`, the remainder on the first
/// `:`, and both patterns must compile.
pub open spec fn parse_result_is(s: Seq<char>, r: Result<Tab, TabSpecError>) -> bool {
    match split_first(s, '=') {
        None => r matches Err(TabSpecError::Malformed { input }) && input@ == s,
        Some((name, rest)) => match split_first(rest, ':') {
            None => r matches Err(TabSpecError::Malformed { input }) && input@ == s,
            Some((key_pat, value_pat)) => if !regex_valid(key_pat) {
                &&& r matches Err(TabSpecError::Pattern { pattern, .. })
                &&& pattern@ == key_pat
            } else if !regex_valid(value_pat) {
                &&& r matches Err(TabSpecError::Pattern { pattern, .. })
                &&& pattern@ == value_pat
            } else {
                &&& r matches Ok(t)
                &&& t@ == (TabModel { name, key_pat, value_pat })
            },
        },
    }
}

/// The first position of `c` in `s`, scanning left to right.
fn find_char(s: &str, c: char) -> (r: Option<usize>)
    ensures
        match r {
            Some(i) => i < s@.len() && s@[i as int] == c && forall|j: int|
                0 <= j < i ==> s@[j] != c,
            None => forall|j: int| 0 <= j < s@.len() ==> s@[j] != c,
        },
{
    let n = s.unicode_len();
    let mut i: usize = 0;
    while i < n
        invariant
            0 <= i <= n,
            n == s@.len(),
            forall|j: int| 0 <= j < i ==> s@[j] != c,
        decreases n - i,
    {
        if s.get_char(i) == c {
            return Some(i);
        }
        i = i + 1;
    }
    None
}

impl Tab {
    /// Builds a tab from its textual spec `NAME=KEY_PATTERN:VALUE_PATTERN`:
    /// split on the first `=`, the remainder on the first `:`; any other
    /// shape is malformed, and both halves must compile as patterns.
    pub fn parse(s: &str) -> (r: Result<Tab, TabSpecError>)
        ensures
            parse_result_is(s@, r),
    {
        let n = s.unicode_len();
        let eq_pos = match find_char(s, '=') {
            None => {
                proof {
                    lemma_split_first_none(s@, '=');
                }
                return Err(TabSpecError::Malformed { input: String::from_str(s) });
            },
            Some(i) => i,
        };
        proof {
            lemma_split_first_at(s@, '=', eq_pos as int);
        }
        let name = s.substring_char(0, eq_pos);
        let rest = s.substring_char(eq_pos + 1, n);
        let rest_len = rest.unicode_len();
        let colon_pos = match find_char(rest, ':') {
            None => {
                proof {
                    lemma_split_first_none(rest@, ':');
                }
                return Err(TabSpecError::Malformed { input: String::from_str(s) });
            },
            Some(i) => i,
        };
        proof {
            lemma_split_first_at(rest@, ':', colon_pos as int);
        }
        let key_pat = rest.substring_char(0, colon_pos);
        let value_pat = rest.substring_char(colon_pos + 1, rest_len);
        let key_regex = match regex_new(key_pat) {
            Err(e) => {
                let message = regex_error_text(&e);
                return Err(
                    TabSpecError::Pattern { pattern: String::from_str(key_pat), message },
                );
            },
            Ok(re) => re,
        };
        let value_regex = match regex_new(value_pat) {
            Err(e) => {
                let message = regex_error_text(&e);
                return Err(
                    TabSpecError::Pattern { pattern: String::from_str(value_pat), message },
                );
            },
            Ok(re) => re,
        };
        Ok(Tab { name: String::from_str(name), key_regex, value_regex })
    }

    /// The tab's display name.
    pub fn label(&self) -> (r: &String)
        ensures
            r@ == self@.name,
    {
        &self.name
    }

    /// Whether any key/value pair of `stats` satisfies both patterns, the
    /// value compared via its display text.
    pub fn is_match(&self, stats: &Stats) -> (r: bool)
        ensures
            r == conn_matches(self@, stats_model(stats@)),
    {
        let ghost model = stats_model(stats@);
        let mut i: usize = 0;
        while i < stats.len()
            invariant
                0 <= i <= stats.len(),
                model == stats_model(stats@),
                model.len() == stats@.len(),
                forall|j: int| 0 <= j < i ==> !pair_matches(self@, model[j]),
            decreases stats.len() - i,
        {
            let value_text = stats[i].1.to_text();
            if regex_is_match(&self.key_regex, stats[i].0.as_str()) && regex_is_match(
                &self.value_regex,
                value_text.as_str(),
            ) {
                assert(pair_matches(self@, model[i as int]));
                return true;
            }
            i = i + 1;
        }
        false
    }
}

} // verus!
