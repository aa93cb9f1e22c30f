//! Model settings: the defaults for the model names and API base, the
//! selection from environment values the caller read, and the parsing of
//! the thinking-mode command.

use vstd::prelude::*;

use crate::text::lower_seq;
use crate::text::to_ascii_lowercase;
use crate::text::trim_seq;
use crate::text::trim_str;
use crate::text::str_eq;

verus! {

/// The first value with non-blank content, trimmed of nothing (the value
/// itself is kept as given), or nothing.
pub open spec fn spec_first_nonblank(values: Seq<Seq<char>>) -> Option<Seq<char>>
    decreases values.len(),
{
    if values.len() == 0 {
        None
    } else if trim_seq(values[0]).len() > 0 {
        Some(values[0])
    } else {
        spec_first_nonblank(values.drop_first())
    }
}

/// Pick the first environment value with non-blank content.
pub fn first_nonblank(values: &Vec<String>) -> (r: Option<String>)
    ensures
        r is Some <==> spec_first_nonblank(values@.map_values(|p: String| p@)) is Some,
        r is Some ==> r->Some_0@ == spec_first_nonblank(
            values@.map_values(|p: String| p@),
        )->Some_0,
{
    let ghost vs = values@.map_values(|p: String| p@);
    let mut i: usize = 0;
    proof {
        assert(vs.subrange(0, vs.len() as int) =~= vs);
    }
    while i < values.len()
        invariant
            vs == values@.map_values(|p: String| p@),
            0 <= i <= values@.len(),
            spec_first_nonblank(vs) == spec_first_nonblank(
                vs.subrange(i as int, vs.len() as int),
            ),
        decreases values@.len() - i,
    {
        proof {
            let sub = vs.subrange(i as int, vs.len() as int);
            assert(sub[0] == vs[i as int]);
            assert(vs[i as int] == values@[i as int]@);
            assert(sub.drop_first() =~= vs.subrange(i + 1, vs.len() as int));
        }
        let t = trim_str(values[i].as_str());
        if t.as_str().unicode_len() > 0 {
            return Some(values[i].clone());
        }
        i = i + 1;
    }
    proof {
        assert(vs.subrange(vs.len() as int, vs.len() as int) =~= Seq::<Seq<char>>::empty());
    }
    None
}

/// The chat model used when the environment names none.
pub fn default_openai_model() -> (r: String)
    ensures
        r@ == "gpt-4o-mini"@,
{
    String::from_str("gpt-4o-mini")
}

/// The embedding model used when the environment names none.
pub fn default_openai_embed_model() -> (r: String)
    ensures
        r@ == "text-embedding-3-small"@,
{
    String::from_str("text-embedding-3-small")
}

/// The API base used when the environment names none.
pub fn default_openai_base_url() -> (r: String)
    ensures
        r@ == "https://api.openai.com/v1"@,
{
    String::from_str("https://api.openai.com/v1")
}

/// A base URL with trailing slashes removed.
pub open spec fn spec_trim_trailing_slash(s: Seq<char>) -> Seq<char>
    decreases s.len(),
{
    if s.len() > 0 && s[s.len() - 1] == '/' {
        spec_trim_trailing_slash(s.drop_last())
    } else {
        s
    }
}

/// Strip trailing slashes from a base URL.
pub fn trim_trailing_slash(s: &str) -> (r: String)
    ensures
        r@ == spec_trim_trailing_slash(s@),
{
    let n = s.unicode_len();
    let mut end: usize = n;
    proof {
        assert(s@.subrange(0, n as int) =~= s@);
    }
    while end > 0 && s.get_char(end - 1) == '/'
        invariant
            n == s@.len(),
            0 <= end <= n,
            forall|j: int| end <= j < n ==> s@[j] == '/',
            spec_trim_trailing_slash(s@) == spec_trim_trailing_slash(s@.subrange(0, end as int)),
        decreases end,
    {
        proof {
            assert(s@.subrange(0, end as int).drop_last() =~= s@.subrange(0, end - 1));
        }
        end = end - 1;
    }
    proof {
        if end > 0 {
            assert(s@.subrange(0, end as int)[end - 1] != '/');
        }
        assert(spec_trim_trailing_slash(s@.subrange(0, end as int)) == s@.subrange(
            0,
            end as int,
        ));
    }
    let r = s.substring_char(0, end);
    String::from_str(r)
}

/// What a thinking-mode word means: `off` and `false` disable reasoning;
/// `on` enables it at medium effort; `low`, `medium` and `high` name the
/// effort; anything else is invalid.  Compared without case on the trimmed
/// word.
pub open spec fn spec_parse_reasoning(s: Seq<char>) -> Option<Option<Seq<char>>> {
    let t = lower_seq(trim_seq(s));
    if t == "off"@ || t == "false"@ {
        Some(None)
    } else if t == "on"@ || t == "medium"@ {
        Some(Some("medium"@))
    } else if t == "low"@ {
        Some(Some("low"@))
    } else if t == "high"@ {
        Some(Some("high"@))
    } else {
        None
    }
}

/// Parse the thinking-mode command's word.
pub fn parse_reasoning_setting(raw: &str) -> (r: Option<Option<String>>)
    ensures
        r is Some <==> spec_parse_reasoning(raw@) is Some,
        r is Some ==> (match (r->Some_0, spec_parse_reasoning(raw@)->Some_0) {
            (Some(a), Some(b)) => a@ == b,
            (None, None) => true,
            _ => false,
        }),
{
    let t0 = trim_str(raw);
    let t = to_ascii_lowercase(t0.as_str());
    let s = t.as_str();
    if str_eq(s, "off") || str_eq(s, "false") {
        Some(None)
    } else if str_eq(s, "on") || str_eq(s, "medium") {
        Some(Some(String::from_str("medium")))
    } else if str_eq(s, "low") {
        Some(Some(String::from_str("low")))
    } else if str_eq(s, "high") {
        Some(Some(String::from_str("high")))
    } else {
        None
    }
}

} // verus!
