//! File-backed background-task recipes: the recipe data type, its trigger
//! matching, the front-matter format, and the built-in recipe templates.
//!
//! A recipe file is Markdown with optional front matter between `---`
//! fences; the body (or an `instructions` key) gives the task prompt.
//! Reading and writing the files themselves happens outside the library:
//! the functions here take and return the text.

use vstd::prelude::*;

use crate::text::eq_ignore_ascii_case;
use crate::text::eq_ignore_case;
use crate::text::find_char;
use crate::text::join_seq;
use crate::text::join_with;
use crate::text::lower_seq;
use crate::text::parse_u64;
use crate::text::spec_parse_u64;
use crate::text::split_seq;
use crate::text::split_str;
use crate::text::starts_with;
use crate::text::starts_with_seq;
use crate::text::to_ascii_lowercase;
use crate::text::trim_seq;
use crate::text::trim_str;

verus! {

/// Fallback interval for a recipe that names none, in seconds.
pub const DEFAULT_AGENT_INTERVAL_SECS: u64 = 1800;

/// A background-task recipe, as parsed from a recipe file.
#[derive(Clone, Debug)]
pub struct AgentRecipe {
    pub name: String,
    pub description: String,
    pub interval_secs: u64,
    pub auto_start: bool,
    pub trigger_events: Vec<String>,
    pub trigger_variables: Vec<String>,
    pub tools: Vec<String>,
    pub persona: String,
    pub instructions: String,
    pub path: String,
}

/// The fields needed to write a fresh recipe file.
#[derive(Clone, Debug)]
pub struct NewAgentRecipe {
    pub name: String,
    pub description: String,
    pub interval_secs: u64,
    pub auto_start: bool,
    pub tools: Vec<String>,
    pub persona: String,
    pub instructions: String,
}

/// A compiled-in starting point for a recipe.
#[derive(Clone, Debug)]
pub struct RecipeTemplate {
    pub id: String,
    pub description: String,
    pub interval_secs: u64,
    pub tools: Vec<String>,
    pub persona: String,
    pub instructions: String,
}

/// Whether a recipe carries any trigger filter at all.
pub open spec fn spec_has_trigger(r: &AgentRecipe) -> bool {
    r.trigger_events@.len() > 0 || r.trigger_variables@.len() > 0
}

/// Whether an event type matches the recipe's event patterns: with no
/// patterns only a variable-update event matches; otherwise any pattern
/// equal to the type up to case.
pub open spec fn spec_event_matches(events: Seq<Seq<char>>, event_type: Seq<char>) -> bool {
    if events.len() == 0 {
        eq_ignore_case(event_type, "VariableUpdate"@)
    } else {
        exists|i: int| 0 <= i < events.len() && eq_ignore_case(#[trigger] events[i], event_type)
    }
}

/// Whether one variable pattern accepts the (already lowercased) variable
/// name: an empty pattern never, `*` always, a trailing `*` as a prefix
/// test, anything else as an exact match, all up to case and surrounding
/// whitespace in the pattern.
pub open spec fn spec_var_pattern_matches(pattern: Seq<char>, candidate: Seq<char>) -> bool {
    let normalized = lower_seq(trim_seq(pattern));
    if normalized.len() == 0 {
        false
    } else if normalized == seq!['*'] {
        true
    } else if normalized[normalized.len() - 1] == '*' {
        starts_with_seq(candidate, normalized.drop_last())
    } else {
        candidate == normalized
    }
}

/// Whether any variable pattern accepts the variable name.
pub open spec fn spec_var_matches(patterns: Seq<Seq<char>>, candidate: Seq<char>) -> bool {
    exists|i: int|
        0 <= i < patterns.len() && spec_var_pattern_matches(#[trigger] patterns[i], candidate)
}

/// The full trigger filter over event patterns and variable patterns: a
/// task without trigger fields never fires on events; the event type must
/// match; and when variable patterns are given, the event must carry a
/// variable name one of them accepts.
pub open spec fn spec_trigger_filter(
    events: Seq<Seq<char>>,
    vars: Seq<Seq<char>>,
    event_type: Seq<char>,
    variable_name: Option<Seq<char>>,
) -> bool {
    &&& events.len() > 0 || vars.len() > 0
    &&& spec_event_matches(events, event_type)
    &&& (vars.len() == 0 || {
        &&& variable_name is Some
        &&& spec_var_matches(vars, lower_seq(variable_name->Some_0))
    })
}

/// The trigger filter of a recipe.
pub open spec fn spec_matches_trigger(
    r: &AgentRecipe,
    event_type: Seq<char>,
    variable_name: Option<Seq<char>>,
) -> bool {
    spec_trigger_filter(
        r.trigger_events@.map_values(|p: String| p@),
        r.trigger_variables@.map_values(|p: String| p@),
        event_type,
        variable_name,
    )
}

impl AgentRecipe {
    /// Whether this recipe has any trigger filter.
    pub fn has_trigger(&self) -> (r: bool)
        ensures
            r == spec_has_trigger(self),
    {
        self.trigger_events.len() > 0 || self.trigger_variables.len() > 0
    }

    /// Decide whether an incoming event fires this recipe.
    pub fn matches_trigger(&self, event_type: &str, variable_name: Option<&str>) -> (r: bool)
        ensures
            r == spec_matches_trigger(
                self,
                event_type@,
                match variable_name {
                    Some(v) => Some(v@),
                    None => None,
                },
            ),
    {
        trigger_filter_matches(
            &self.trigger_events,
            &self.trigger_variables,
            event_type,
            variable_name,
        )
    }
}

/// Decide the trigger filter over plain pattern lists.
pub fn trigger_filter_matches(
    events: &Vec<String>,
    vars: &Vec<String>,
    event_type: &str,
    variable_name: Option<&str>,
) -> (r: bool)
    ensures
        r == spec_trigger_filter(
            events@.map_values(|p: String| p@),
            vars@.map_values(|p: String| p@),
            event_type@,
            match variable_name {
                Some(v) => Some(v@),
                None => None,
            },
        ),
{
    if events.len() == 0 && vars.len() == 0 {
        return false;
    }
    let event_match = if events.len() == 0 {
        eq_ignore_ascii_case(event_type, "VariableUpdate")
    } else {
        let mut found = false;
        let mut i: usize = 0;
        while i < events.len()
            invariant
                0 <= i <= events@.len(),
                found == exists|j: int|
                    0 <= j < i && eq_ignore_case(#[trigger] events@[j]@, event_type@),
            decreases events@.len() - i,
        {
            if eq_ignore_ascii_case(events[i].as_str(), event_type) {
                found = true;
            }
            i = i + 1;
        }
        proof {
            let evs = events@.map_values(|p: String| p@);
            if found {
                let j = choose|j: int|
                    0 <= j < i && eq_ignore_case(events@[j]@, event_type@);
                assert(evs[j] == events@[j]@);
                assert(spec_event_matches(evs, event_type@));
            } else {
                assert forall|j: int|
                    0 <= j < evs.len() implies !eq_ignore_case(
                    #[trigger] evs[j],
                    event_type@,
                ) by {
                    assert(evs[j] == events@[j]@);
                }
            }
        }
        found
    };
    if !event_match {
        return false;
    }
    if vars.len() == 0 {
        return true;
    }
    let name = match variable_name {
        Some(n) => n,
        None => {
            return false;
        },
    };
    let candidate = to_ascii_lowercase(name);
    proof {
        crate::text::lemma_lower_idempotent(name@);
    }
    let mut i: usize = 0;
    while i < vars.len()
        invariant
            events@.len() > 0 || vars@.len() > 0,
            spec_event_matches(events@.map_values(|p: String| p@), event_type@),
            vars@.len() > 0,
            variable_name is Some,
            variable_name->Some_0@ == name@,
            candidate@ == lower_seq(name@),
            candidate@ == lower_seq(candidate@),
            0 <= i <= vars@.len(),
            forall|j: int|
                0 <= j < i ==> !spec_var_pattern_matches(#[trigger] vars@[j]@, candidate@),
        decreases vars@.len() - i,
    {
        if var_pattern_matches(vars[i].as_str(), candidate.as_str()) {
            proof {
                let pats = vars@.map_values(|p: String| p@);
                assert(pats[i as int] == vars@[i as int]@);
                assert(spec_var_matches(pats, candidate@));
            }
            return true;
        }
        i = i + 1;
    }
    proof {
        let pats = vars@.map_values(|p: String| p@);
        assert forall|j: int|
            0 <= j < pats.len() implies !spec_var_pattern_matches(
            #[trigger] pats[j],
            candidate@,
        ) by {
            assert(pats[j] == vars@[j]@);
        }
    }
    false
}

impl AgentRecipe {
    /// Render the trigger filter as `events:variables`, or nothing when the
    /// recipe has no trigger.  Empty event patterns show as the default
    /// variable-update type, empty variable patterns as `*`.
    pub fn trigger_summary(&self) -> (r: Option<String>)
        ensures
            r is Some <==> spec_has_trigger(self),
            r is Some ==> r->Some_0@ == spec_trigger_summary(self),
    {
        if !self.has_trigger() {
            return None;
        }
        let events = if self.trigger_events.len() == 0 {
            String::from_str("VariableUpdate")
        } else {
            join_with(&self.trigger_events, '|')
        };
        let vars = if self.trigger_variables.len() == 0 {
            String::from_str("*")
        } else {
            join_with(&self.trigger_variables, ',')
        };
        let mut out = events;
        out.append(":");
        out.append(vars.as_str());
        Some(out)
    }
}

/// The view of a recipe's trigger summary: the event patterns joined with
/// `|` (or the default event type), a colon, then the variable patterns
/// joined with `,` (or `*`).
pub open spec fn spec_trigger_summary(r: &AgentRecipe) -> Seq<char> {
    let events = if r.trigger_events@.len() == 0 {
        "VariableUpdate"@
    } else {
        join_seq(r.trigger_events@.map_values(|p: String| p@), '|')
    };
    let vars = if r.trigger_variables@.len() == 0 {
        "*"@
    } else {
        join_seq(r.trigger_variables@.map_values(|p: String| p@), ',')
    };
    events + ":"@ + vars
}

/// Decide whether one variable pattern accepts the lowercased candidate.
fn var_pattern_matches(pattern: &str, candidate: &str) -> (r: bool)
    requires
        candidate@ == lower_seq(candidate@),
    ensures
        r == spec_var_pattern_matches(pattern@, candidate@),
{
    let trimmed = trim_str(pattern);
    let normalized = to_ascii_lowercase(trimmed.as_str());
    let n = normalized.as_str().unicode_len();
    if n == 0 {
        return false;
    }
    if n == 1 && normalized.as_str().get_char(0) == '*' {
        proof {
            assert(normalized@ =~= seq!['*']);
        }
        return true;
    }
    proof {
        assert(normalized@ != seq!['*']);
    }
    if normalized.as_str().get_char(n - 1) == '*' {
        let prefix = normalized.as_str().substring_char(0, n - 1);
        proof {
            assert(prefix@ =~= normalized@.drop_last());
        }
        starts_with(candidate, prefix)
    } else {
        crate::text::str_eq(candidate, normalized.as_str())
    }
}

/// A task with neither event patterns nor variable patterns never fires on
/// an event, whatever the event carries.
pub proof fn lemma_no_trigger_never_fires(
    r: &AgentRecipe,
    event_type: Seq<char>,
    variable_name: Option<Seq<char>>,
)
    requires
        r.trigger_events@.len() == 0,
        r.trigger_variables@.len() == 0,
    ensures
        !spec_matches_trigger(r, event_type, variable_name),
{
}

/// What a recipe value in the front matter means as a boolean.
pub open spec fn spec_parse_bool(s: Seq<char>) -> Option<bool> {
    let t = lower_seq(trim_seq(s));
    if t == "true"@ || t == "1"@ || t == "yes"@ || t == "on"@ {
        Some(true)
    } else if t == "false"@ || t == "0"@ || t == "no"@ || t == "off"@ {
        Some(false)
    } else {
        None
    }
}

/// Parse a boolean front-matter value.
pub fn parse_bool(raw: &str) -> (r: Option<bool>)
    ensures
        r == spec_parse_bool(raw@),
{
    let t0 = trim_str(raw);
    let t = to_ascii_lowercase(t0.as_str());
    let s = t.as_str();
    if crate::text::str_eq(s, "true") || crate::text::str_eq(s, "1") || crate::text::str_eq(
        s,
        "yes",
    ) || crate::text::str_eq(s, "on") {
        Some(true)
    } else if crate::text::str_eq(s, "false") || crate::text::str_eq(s, "0")
        || crate::text::str_eq(s, "no") || crate::text::str_eq(s, "off") {
        Some(false)
    } else {
        None
    }
}

/// The items of a comma-separated value: each piece trimmed, empty pieces
/// dropped.
pub open spec fn spec_parse_csv(s: Seq<char>) -> Seq<Seq<char>> {
    split_seq(s, ',').map_values(|p: Seq<char>| trim_seq(p)).filter(
        |p: Seq<char>| p.len() != 0,
    )
}

/// Parse a comma-separated list.
pub fn parse_csv(raw: &str) -> (r: Vec<String>)
    ensures
        r@.map_values(|p: String| p@) == spec_parse_csv(raw@),
{
    let pieces = split_str(raw, ',');
    let mut out: Vec<String> = Vec::new();
    let mut i: usize = 0;
    proof {
        assert(split_seq(raw@, ',').subrange(0, 0) =~= Seq::<Seq<char>>::empty());
        assert(Seq::<Seq<char>>::empty().map_values(|p: Seq<char>| trim_seq(p)).filter(
            |p: Seq<char>| p.len() != 0,
        ) =~= Seq::<Seq<char>>::empty());
        assert(out@.map_values(|p: String| p@) =~= Seq::<Seq<char>>::empty());
    }
    while i < pieces.len()
        invariant
            pieces@.map_values(|p: String| p@) == split_seq(raw@, ','),
            0 <= i <= pieces@.len(),
            out@.map_values(|p: String| p@) == split_seq(raw@, ',').subrange(
                0,
                i as int,
            ).map_values(|p: Seq<char>| trim_seq(p)).filter(|p: Seq<char>| p.len() != 0),
        decreases pieces@.len() - i,
    {
        let t = trim_str(pieces[i].as_str());
        let keep = t.as_str().unicode_len() > 0;
        proof {
            reveal_with_fuel(Seq::<Seq<char>>::filter, 2);
            let pred = |p: Seq<char>| p.len() != 0;
            let prefix = split_seq(raw@, ',').subrange(0, i as int);
            let next = split_seq(raw@, ',').subrange(0, i + 1);
            assert(next =~= prefix.push(split_seq(raw@, ',')[i as int]));
            assert(pieces@.map_values(|p: String| p@)[i as int] == pieces@[i as int]@);
            let mapped_prefix = prefix.map_values(|p: Seq<char>| trim_seq(p));
            let mapped_next = next.map_values(|p: Seq<char>| trim_seq(p));
            let tm = trim_seq(pieces@[i as int]@);
            assert(mapped_next =~= mapped_prefix.push(tm));
            assert(mapped_next.drop_last() =~= mapped_prefix);
            assert(mapped_next.len() > 0);
            assert(mapped_next.last() == tm);
            assert(mapped_next.filter(pred) == if pred(tm) {
                mapped_prefix.filter(pred).push(tm)
            } else {
                mapped_prefix.filter(pred)
            });
        }
        if keep {
            out.push(t);
            proof {
                assert(out@.map_values(|p: String| p@) =~= out@.drop_last().map_values(
                    |p: String| p@,
                ).push(t@));
            }
        }
        i = i + 1;
    }
    proof {
        assert(split_seq(raw@, ',').subrange(0, pieces@.len() as int) =~= split_seq(raw@, ','));
    }
    out
}

/// A trimmed value with one level of symmetric quoting removed: matching
/// double or single quotes around at least two characters.
pub open spec fn spec_strip_quotes(s: Seq<char>) -> Seq<char> {
    let t = trim_seq(s);
    if t.len() >= 2 && ((t[0] == '"' && t[t.len() - 1] == '"') || (t[0] == '\'' && t[t.len() - 1]
        == '\'')) {
        t.subrange(1, t.len() - 1)
    } else {
        t
    }
}

/// Strip symmetric quotes from a trimmed value.
pub fn strip_quotes(raw: &str) -> (r: String)
    ensures
        r@ == spec_strip_quotes(raw@),
{
    let t = trim_str(raw);
    let n = t.as_str().unicode_len();
    if n >= 2 {
        let first = t.as_str().get_char(0);
        let last = t.as_str().get_char(n - 1);
        if (first == '"' && last == '"') || (first == '\'' && last == '\'') {
            let inner = t.as_str().substring_char(1, n - 1);
            return String::from_str(inner);
        }
    }
    t
}

/// One escaped character of a YAML double-quoted scalar.
pub open spec fn esc_char(c: char) -> Seq<char> {
    if c == '\\' {
        seq!['\\', '\\']
    } else if c == '"' {
        seq!['\\', '"']
    } else {
        seq![c]
    }
}

/// A sequence with backslashes and double quotes escaped.
pub open spec fn esc_seq(s: Seq<char>) -> Seq<char>
    decreases s.len(),
{
    if s.len() == 0 {
        Seq::empty()
    } else {
        esc_char(s[0]) + esc_seq(s.drop_first())
    }
}

/// The double-quoted YAML form of a value.
pub open spec fn spec_yaml_quote(s: Seq<char>) -> Seq<char> {
    seq!['"'] + esc_seq(s) + seq!['"']
}

proof fn lemma_esc_snoc(s: Seq<char>, c: char)
    ensures
        esc_seq(s.push(c)) == esc_seq(s) + esc_char(c),
    decreases s.len(),
{
    if s.len() == 0 {
        assert(s.push(c)[0] == c);
        assert(s.push(c).drop_first() =~= Seq::<char>::empty());
        assert(esc_seq(Seq::<char>::empty()) == Seq::<char>::empty());
        assert(esc_seq(s.push(c)) == esc_char(c) + Seq::<char>::empty());
        assert(esc_char(c) + Seq::<char>::empty() =~= esc_char(c));
        assert(esc_seq(s) == Seq::<char>::empty());
        assert(Seq::<char>::empty() + esc_char(c) =~= esc_char(c));
    } else {
        lemma_esc_snoc(s.drop_first(), c);
        assert(s.push(c).drop_first() =~= s.drop_first().push(c));
        assert(s.push(c)[0] == s[0]);
        assert(s.push(c).len() > 0);
        assert(esc_seq(s.push(c)) == esc_char(s[0]) + esc_seq(s.drop_first().push(c)));
        assert(esc_seq(s.drop_first().push(c)) == esc_seq(s.drop_first()) + esc_char(c));
        assert(esc_char(s[0]) + (esc_seq(s.drop_first()) + esc_char(c)) =~= (esc_char(s[0])
            + esc_seq(s.drop_first())) + esc_char(c));
        assert(esc_seq(s) == esc_char(s[0]) + esc_seq(s.drop_first()));
    }
}

/// Quote a value for a YAML front-matter line.
pub fn yaml_quote(value: &str) -> (r: String)
    ensures
        r@ == spec_yaml_quote(value@),
{
    let n = value.unicode_len();
    let mut out = String::from_str("\"");
    let mut i: usize = 0;
    proof {
        reveal_strlit("\"");
        assert(value@.subrange(0, 0) =~= Seq::<char>::empty());
        assert(out@ =~= seq!['"'] + esc_seq(value@.subrange(0, 0)));
    }
    while i < n
        invariant
            n == value@.len(),
            0 <= i <= n,
            out@ == seq!['"'] + esc_seq(value@.subrange(0, i as int)),
        decreases n - i,
    {
        let c = value.get_char(i);
        if c == '\\' {
            out.append("\\\\");
        } else if c == '"' {
            out.append("\\\"");
        } else {
            out.append(crate::text::char_to_str(c).as_str());
        }
        proof {
            reveal_strlit("\\\\");
            reveal_strlit("\\\"");
            assert(value@.subrange(0, i + 1) =~= value@.subrange(0, i as int).push(
                value@[i as int],
            ));
            lemma_esc_snoc(value@.subrange(0, i as int), value@[i as int]);
            assert(out@ =~= seq!['"'] + esc_seq(value@.subrange(0, i + 1)));
        }
        i = i + 1;
    }
    out.append("\"");
    proof {
        reveal_strlit("\"");
        assert(value@.subrange(0, n as int) =~= value@);
        assert(out@ =~= seq!['"'] + esc_seq(value@) + seq!['"']);
    }
    out
}

/// An ASCII letter, digit, dash or underscore, the characters a task name
/// may keep.
pub open spec fn is_name_char(c: char) -> bool {
    ('a' <= c && c <= 'z') || ('A' <= c && c <= 'Z') || ('0' <= c && c <= '9') || c == '-' || c
        == '_'
}

/// The view of a sanitized name: the trimmed input lowercased, every other
/// character replaced by a dash, and surrounding dashes removed.
pub open spec fn spec_sanitize_name(s: Seq<char>) -> Seq<char> {
    crate::text::trim_pred(
        lower_seq(trim_seq(s)).map_values(
            |c: char|
                if is_name_char(c) {
                    c
                } else {
                    '-'
                },
        ),
        |c: char| c == '-',
    )
}

/// Errors of the recipe format.
#[derive(Clone, Debug, PartialEq, Eq)]
pub enum RecipeError {
    /// The name sanitizes to nothing.
    EmptyName,
    /// Neither a markdown body nor an `instructions` key gives a prompt.
    MissingInstructions,
}

impl RecipeError {
    /// Human-readable description of the error.
    pub fn message(&self) -> (r: &'static str)
        ensures
            self is EmptyName ==> r@ == "name cannot be empty"@,
            self is MissingInstructions ==> r@
                == "missing instructions: add markdown body or front matter `instructions`"@,
    {
        match self {
            RecipeError::EmptyName => "name cannot be empty",
            RecipeError::MissingInstructions => "missing instructions: add markdown body or front matter `instructions`",
        }
    }
}

/// Sanitize a task name; fails exactly when nothing survives.
pub fn sanitize_name(raw: &str) -> (r: Result<String, RecipeError>)
    ensures
        r is Ok <==> spec_sanitize_name(raw@).len() > 0,
        r is Ok ==> r->Ok_0@ == spec_sanitize_name(raw@),
        r is Err ==> r->Err_0 == RecipeError::EmptyName,
{
    let t = trim_str(raw);
    let lowered = to_ascii_lowercase(t.as_str());
    let n = lowered.as_str().unicode_len();
    let mut mapped = String::new();
    let mut i: usize = 0;
    while i < n
        invariant
            n == lowered@.len(),
            0 <= i <= n,
            mapped@ =~= lowered@.subrange(0, i as int).map_values(
                |c: char|
                    if is_name_char(c) {
                        c
                    } else {
                        '-'
                    },
            ),
        decreases n - i,
    {
        let c = lowered.as_str().get_char(i);
        let keep = ('a' <= c && c <= 'z') || ('A' <= c && c <= 'Z') || ('0' <= c && c <= '9') || c
            == '-' || c == '_';
        if keep {
            out_push(&mut mapped, c);
        } else {
            out_push(&mut mapped, '-');
        }
        proof {
            assert(mapped@ =~= lowered@.subrange(0, i + 1).map_values(
                |c: char|
                    if is_name_char(c) {
                        c
                    } else {
                        '-'
                    },
            ));
        }
        i = i + 1;
    }
    proof {
        assert(lowered@.subrange(0, n as int) =~= lowered@);
    }
    let candidate = crate::text::trim_dashes(mapped.as_str());
    if candidate.as_str().unicode_len() == 0 {
        Err(RecipeError::EmptyName)
    } else {
        Ok(candidate)
    }
}

/// Append one character to a string.
fn out_push(out: &mut String, c: char)
    ensures
        final(out)@ == old(out)@.push(c),
{
    out.append(crate::text::char_to_str(c).as_str());
    proof {
        assert(old(out)@ + seq![c] =~= old(out)@.push(c));
    }
}

/// A front-matter fence: a line that is `---` once trimmed.
pub open spec fn is_fence(l: Seq<char>) -> bool {
    trim_seq(l) == "---"@
}

/// Index of the first fence line at or after `from`, or `lines.len()` when
/// there is none.
pub open spec fn fence_from(lines: Seq<Seq<char>>, from: int) -> int
    decreases lines.len() - from,
{
    if from < 0 || from >= lines.len() {
        lines.len() as int
    } else if is_fence(lines[from]) {
        from
    } else {
        fence_from(lines, from + 1)
    }
}

pub proof fn lemma_fence_from(lines: Seq<Seq<char>>, from: int)
    requires
        0 <= from <= lines.len(),
    ensures
        from <= fence_from(lines, from) <= lines.len(),
        fence_from(lines, from) < lines.len() ==> is_fence(lines[fence_from(lines, from)]),
        forall|j: int| from <= j < fence_from(lines, from) ==> !is_fence(lines[j]),
    decreases lines.len() - from,
{
    if from < lines.len() && !is_fence(lines[from]) {
        lemma_fence_from(lines, from + 1);
    }
}

/// The key/value pair a front-matter line contributes: nothing for a blank
/// line, a comment, or a line without a colon; otherwise the lowercased
/// trimmed key and the unquoted trimmed value.
pub open spec fn spec_entry_of_line(l: Seq<char>) -> Option<(Seq<char>, Seq<char>)> {
    let t = trim_seq(l);
    if t.len() == 0 || t[0] == '#' {
        None
    } else {
        let i = find_char(l, ':');
        if 0 <= i < l.len() {
            Some(
                (
                    lower_seq(trim_seq(l.subrange(0, i))),
                    spec_strip_quotes(l.subrange(i + 1, l.len() as int)),
                ),
            )
        } else {
            None
        }
    }
}

/// The entries of the lines in `from..to`, in order.
pub open spec fn entries_between(lines: Seq<Seq<char>>, from: int, to: int) -> Seq<
    (Seq<char>, Seq<char>),
>
    decreases to - from,
{
    if from >= to {
        Seq::empty()
    } else {
        let init = entries_between(lines, from, to - 1);
        match spec_entry_of_line(lines[to - 1]) {
            Some(e) => init.push(e),
            None => init,
        }
    }
}

/// Front matter and body of a recipe file.  Without an opening fence on the
/// first line, or without a closing fence, the whole text is the body and
/// there are no entries.  Otherwise the entries come from the lines between
/// the fences and the body is everything after the closing fence.
pub open spec fn spec_split_front_matter(raw: Seq<char>) -> (Seq<(Seq<char>, Seq<char>)>, Seq<
    char,
>) {
    let lines = split_seq(raw, '\n');
    if !is_fence(lines[0]) {
        (Seq::empty(), raw)
    } else {
        let k = fence_from(lines, 1);
        if k >= lines.len() {
            (Seq::empty(), raw)
        } else {
            (
                entries_between(lines, 1, k),
                join_seq(lines.subrange(k + 1, lines.len() as int), '\n'),
            )
        }
    }
}

/// Whether a line is a front-matter fence.
fn is_fence_line(l: &str) -> (r: bool)
    ensures
        r == is_fence(l@),
{
    let t = trim_str(l);
    crate::text::str_eq(t.as_str(), "---")
}

/// Extract the entry of one front-matter line.
fn entry_of_line(l: &str) -> (r: Option<(String, String)>)
    ensures
        r is Some <==> spec_entry_of_line(l@) is Some,
        r is Some ==> {
            &&& r->Some_0.0@ == spec_entry_of_line(l@)->Some_0.0
            &&& r->Some_0.1@ == spec_entry_of_line(l@)->Some_0.1
        },
{
    let t = trim_str(l);
    if t.as_str().unicode_len() == 0 {
        return None;
    }
    if t.as_str().get_char(0) == '#' {
        return None;
    }
    let n = l.unicode_len();
    let mut i: usize = 0;
    while i < n && l.get_char(i) != ':'
        invariant
            n == l@.len(),
            0 <= i <= n,
            forall|j: int| 0 <= j < i ==> l@[j] != ':',
        decreases n - i,
    {
        i = i + 1;
    }
    if i == n {
        proof {
            crate::text::lemma_find_char_none(l@, ':');
        }
        return None;
    }
    proof {
        crate::text::lemma_find_char_at(l@, ':', i as int);
    }
    let key0 = l.substring_char(0, i);
    let key1 = trim_str(key0);
    let key = to_ascii_lowercase(key1.as_str());
    let value = strip_quotes(l.substring_char(i + 1, n));
    Some((key, value))
}

/// Split a recipe file into its front-matter entries and its body.
pub fn split_front_matter(raw: &str) -> (r: (Vec<(String, String)>, String))
    ensures
        r.0@.map_values(|e: (String, String)| (e.0@, e.1@)) == spec_split_front_matter(raw@).0,
        r.1@ == spec_split_front_matter(raw@).1,
{
    let lines = split_str(raw, '\n');
    proof {
        crate::text::lemma_split_seq_len(raw@, '\n');
        assert(lines@.map_values(|p: String| p@)[0] == lines@[0]@);
    }
    if !is_fence_line(lines[0].as_str()) {
        let mut empty: Vec<(String, String)> = Vec::new();
        proof {
            assert(empty@.map_values(|e: (String, String)| (e.0@, e.1@)) =~= Seq::<(
                Seq<char>,
                Seq<char>,
            )>::empty());
        }
        return (empty, String::from_str(raw));
    }
    let ghost lines_view = lines@.map_values(|p: String| p@);
    // Find the closing fence.
    let mut k: usize = 1;
    while k < lines.len() && !is_fence_line(lines[k].as_str())
        invariant
            lines_view == lines@.map_values(|p: String| p@),
            1 <= k <= lines@.len(),
            forall|j: int| 1 <= j < k ==> !is_fence(#[trigger] lines_view[j]),
        decreases lines@.len() - k,
    {
        proof {
            assert(lines_view[k as int] == lines@[k as int]@);
        }
        k = k + 1;
    }
    proof {
        lemma_fence_from(lines_view, 1);
        if k < lines@.len() {
            assert(lines_view[k as int] == lines@[k as int]@);
            assert(is_fence(lines_view[k as int]));
            if fence_from(lines_view, 1) < k {
                assert(!is_fence(lines_view[fence_from(lines_view, 1)]));
            }
            assert(fence_from(lines_view, 1) == k);
        } else {
            assert(fence_from(lines_view, 1) == lines_view.len());
        }
    }
    if k == lines.len() {
        let mut empty: Vec<(String, String)> = Vec::new();
        proof {
            assert(empty@.map_values(|e: (String, String)| (e.0@, e.1@)) =~= Seq::<(
                Seq<char>,
                Seq<char>,
            )>::empty());
        }
        return (empty, String::from_str(raw));
    }
    // Collect the entries of the lines between the fences.
    let mut entries: Vec<(String, String)> = Vec::new();
    let mut i: usize = 1;
    proof {
        assert(entries@.map_values(|e: (String, String)| (e.0@, e.1@)) =~= entries_between(
            lines_view,
            1,
            1,
        ));
    }
    while i < k
        invariant
            lines_view == lines@.map_values(|p: String| p@),
            1 <= i <= k < lines@.len(),
            entries@.map_values(|e: (String, String)| (e.0@, e.1@)) == entries_between(
                lines_view,
                1,
                i as int,
            ),
        decreases k - i,
    {
        proof {
            assert(lines_view[i as int] == lines@[i as int]@);
        }
        if let Some(e) = entry_of_line(lines[i].as_str()) {
            entries.push(e);
            proof {
                assert(entries@.map_values(|e: (String, String)| (e.0@, e.1@))
                    =~= entries@.drop_last().map_values(|e: (String, String)| (e.0@, e.1@)).push(
                    (entries@.last().0@, entries@.last().1@),
                ));
            }
        }
        i = i + 1;
    }
    // The body is everything after the closing fence.
    let mut tail: Vec<String> = Vec::new();
    let mut j: usize = k + 1;
    while j < lines.len()
        invariant
            lines_view == lines@.map_values(|p: String| p@),
            k + 1 <= j <= lines@.len(),
            tail@.map_values(|p: String| p@) == lines_view.subrange(k + 1, j as int),
        decreases lines@.len() - j,
    {
        proof {
            assert(lines_view[j as int] == lines@[j as int]@);
        }
        let ghost told = tail@;
        tail.push(lines[j].clone());
        proof {
            assert(tail@ =~= told.push(lines@[j as int]));
            assert(told.map_values(|p: String| p@).len() == told.len());
            assert(told.len() == j - k - 1);
            assert(tail@.len() == j - k);
            assert(lines_view.len() == lines@.len());
            assert forall|m: int| 0 <= m < tail@.len() implies tail@.map_values(|p: String| p@)[m]
                == #[trigger] lines_view.subrange(k + 1, j + 1)[m] by {
                assert(tail@.map_values(|p: String| p@)[m] == tail@[m]@);
                if m < told.len() {
                    assert(tail@[m] == told[m]);
                    assert(told.map_values(|p: String| p@)[m] == told[m]@);
                    assert(told[m]@ == lines_view.subrange(k + 1, j as int)[m]);
                } else {
                    assert(tail@[m] == lines@[j as int]);
                }
            }
            assert(tail@.map_values(|p: String| p@) =~= lines_view.subrange(k + 1, j + 1));
        }
        j = j + 1;
    }
    let body = join_with(&tail, '\n');
    (entries, body)
}

/// The value of the last entry with the given key, as a map lookup where
/// later lines override earlier ones.
pub open spec fn spec_fm_get(entries: Seq<(Seq<char>, Seq<char>)>, key: Seq<char>) -> Option<
    Seq<char>,
>
    decreases entries.len(),
{
    if entries.len() == 0 {
        None
    } else if entries.last().0 == key {
        Some(entries.last().1)
    } else {
        spec_fm_get(entries.drop_last(), key)
    }
}

/// Look a key up among front-matter entries.
pub fn fm_get(entries: &Vec<(String, String)>, key: &str) -> (r: Option<String>)
    ensures
        r is Some <==> spec_fm_get(
            entries@.map_values(|e: (String, String)| (e.0@, e.1@)),
            key@,
        ) is Some,
        r is Some ==> r->Some_0@ == spec_fm_get(
            entries@.map_values(|e: (String, String)| (e.0@, e.1@)),
            key@,
        )->Some_0,
{
    let ghost ev = entries@.map_values(|e: (String, String)| (e.0@, e.1@));
    let mut i: usize = entries.len();
    proof {
        assert(ev.subrange(0, entries@.len() as int) =~= ev);
    }
    while i > 0
        invariant
            ev == entries@.map_values(|e: (String, String)| (e.0@, e.1@)),
            0 <= i <= entries@.len(),
            spec_fm_get(ev, key@) == spec_fm_get(ev.subrange(0, i as int), key@),
        decreases i,
    {
        proof {
            assert(ev[i - 1] == (entries@[i - 1].0@, entries@[i - 1].1@));
            assert(ev.subrange(0, i as int).last() == ev[i - 1]);
            assert(ev.subrange(0, i as int).drop_last() =~= ev.subrange(0, i - 1));
        }
        if crate::text::str_eq(entries[i - 1].0.as_str(), key) {
            return Some(entries[i - 1].1.clone());
        }
        i = i - 1;
    }
    proof {
        assert(ev.subrange(0, 0) =~= Seq::<(Seq<char>, Seq<char>)>::empty());
    }
    None
}

/// The persona a recipe falls back to when its front matter names none.
pub open spec fn spec_default_persona(name: Seq<char>) -> Seq<char> {
    "You are a background autonomous agent named '"@ + name
        + "'. Be concise, action-oriented, and explicit about changes."@
}

/// The view of each field of a parsed recipe, over the file's entries,
/// body, and the file-stem fallback name.
pub open spec fn spec_recipe_name(
    entries: Seq<(Seq<char>, Seq<char>)>,
    stem: Seq<char>,
) -> Option<Seq<char>> {
    match spec_fm_get(entries, "name"@) {
        Some(v) => if spec_sanitize_name(v).len() > 0 {
            Some(spec_sanitize_name(v))
        } else {
            None
        },
        None => Some(stem),
    }
}

pub open spec fn spec_recipe_interval(entries: Seq<(Seq<char>, Seq<char>)>) -> u64 {
    let v = match spec_fm_get(entries, "interval_secs"@) {
        Some(v) => Some(v),
        None => spec_fm_get(entries, "interval"@),
    };
    match v {
        Some(v) => match spec_parse_u64(v) {
            Some(n) => n,
            None => DEFAULT_AGENT_INTERVAL_SECS,
        },
        None => DEFAULT_AGENT_INTERVAL_SECS,
    }
}

pub open spec fn spec_recipe_auto_start(entries: Seq<(Seq<char>, Seq<char>)>) -> bool {
    let v = match spec_fm_get(entries, "auto_start"@) {
        Some(v) => Some(v),
        None => spec_fm_get(entries, "autostart"@),
    };
    match v {
        Some(v) => match spec_parse_bool(v) {
            Some(b) => b,
            None => false,
        },
        None => false,
    }
}

pub open spec fn spec_recipe_trigger_events(entries: Seq<(Seq<char>, Seq<char>)>) -> Seq<
    Seq<char>,
> {
    let v = match spec_fm_get(entries, "trigger_events"@) {
        Some(v) => Some(v),
        None => spec_fm_get(entries, "events"@),
    };
    match v {
        Some(v) => spec_parse_csv(v),
        None => Seq::empty(),
    }
}

pub open spec fn spec_recipe_trigger_variables(entries: Seq<(Seq<char>, Seq<char>)>) -> Seq<
    Seq<char>,
> {
    let v = match spec_fm_get(entries, "trigger_variables"@) {
        Some(v) => Some(v),
        None => match spec_fm_get(entries, "trigger_vars"@) {
            Some(v) => Some(v),
            None => spec_fm_get(entries, "trigger_keys"@),
        },
    };
    match v {
        Some(v) => spec_parse_csv(v),
        None => Seq::empty(),
    }
}

pub open spec fn spec_recipe_tools(entries: Seq<(Seq<char>, Seq<char>)>) -> Seq<Seq<char>> {
    match spec_fm_get(entries, "tools"@) {
        Some(v) => spec_parse_csv(v),
        None => Seq::empty(),
    }
}

pub open spec fn spec_recipe_instructions(
    entries: Seq<(Seq<char>, Seq<char>)>,
    body: Seq<char>,
) -> Seq<char> {
    if trim_seq(body).len() > 0 {
        trim_seq(body)
    } else {
        let v = match spec_fm_get(entries, "instructions"@) {
            Some(v) => Some(v),
            None => spec_fm_get(entries, "prompt"@),
        };
        match v {
            Some(v) => trim_seq(v),
            None => Seq::empty(),
        }
    }
}

/// Look up the first of two keys.
fn fm_get2(entries: &Vec<(String, String)>, k1: &str, k2: &str) -> (r: Option<String>)
    ensures
        ({
            let ev = entries@.map_values(|e: (String, String)| (e.0@, e.1@));
            let v = match spec_fm_get(ev, k1@) {
                Some(v) => Some(v),
                None => spec_fm_get(ev, k2@),
            };
            match v {
                Some(v) => r is Some && r->Some_0@ == v,
                None => r is None,
            }
        }),
{
    match fm_get(entries, k1) {
        Some(v) => Some(v),
        None => fm_get(entries, k2),
    }
}

/// Parse a recipe file.  `stem` is the file name without its extension,
/// used when the front matter names no task; `path` is carried through into
/// the recipe unchanged.
pub fn parse_recipe_file(stem: &str, path: &str, raw: &str) -> (r: Result<
    AgentRecipe,
    RecipeError,
>)
    ensures
        ({
            let entries = spec_split_front_matter(raw@).0;
            let body = spec_split_front_matter(raw@).1;
            match r {
                Ok(rec) => {
                    &&& spec_recipe_name(entries, stem@) is Some
                    &&& rec.name@ == spec_recipe_name(entries, stem@)->Some_0
                    &&& rec.description@ == (match spec_fm_get(entries, "description"@) {
                        Some(v) => trim_seq(v),
                        None => Seq::<char>::empty(),
                    })
                    &&& rec.interval_secs == spec_recipe_interval(entries)
                    &&& rec.auto_start == spec_recipe_auto_start(entries)
                    &&& rec.trigger_events@.map_values(|p: String| p@)
                        == spec_recipe_trigger_events(entries)
                    &&& rec.trigger_variables@.map_values(|p: String| p@)
                        == spec_recipe_trigger_variables(entries)
                    &&& rec.tools@.map_values(|p: String| p@) == spec_recipe_tools(entries)
                    &&& rec.persona@ == (match spec_fm_get(entries, "persona"@) {
                        Some(v) => v,
                        None => spec_default_persona(rec.name@),
                    })
                    &&& rec.instructions@ == spec_recipe_instructions(entries, body)
                    &&& rec.instructions@.len() > 0
                    &&& rec.path@ == path@
                },
                Err(RecipeError::EmptyName) => spec_recipe_name(entries, stem@) is None,
                Err(RecipeError::MissingInstructions) => {
                    &&& spec_recipe_name(entries, stem@) is Some
                    &&& spec_recipe_instructions(entries, body).len() == 0
                },
            }
        }),
{
    let (entries, body) = split_front_matter(raw);
    let name = match fm_get(&entries, "name") {
        Some(v) => match sanitize_name(v.as_str()) {
            Ok(n) => n,
            Err(e) => {
                return Err(e);
            },
        },
        None => String::from_str(stem),
    };
    let description = match fm_get(&entries, "description") {
        Some(v) => trim_str(v.as_str()),
        None => String::new(),
    };
    let interval_secs = match fm_get2(&entries, "interval_secs", "interval") {
        Some(v) => match parse_u64(v.as_str()) {
            Some(n) => n,
            None => DEFAULT_AGENT_INTERVAL_SECS,
        },
        None => DEFAULT_AGENT_INTERVAL_SECS,
    };
    let auto_start = match fm_get2(&entries, "auto_start", "autostart") {
        Some(v) => match parse_bool(v.as_str()) {
            Some(b) => b,
            None => false,
        },
        None => false,
    };
    let trigger_events = match fm_get2(&entries, "trigger_events", "events") {
        Some(v) => parse_csv(v.as_str()),
        None => Vec::new(),
    };
    let trigger_variables = match fm_get(&entries, "trigger_variables") {
        Some(v) => parse_csv(v.as_str()),
        None => match fm_get2(&entries, "trigger_vars", "trigger_keys") {
            Some(v) => parse_csv(v.as_str()),
            None => Vec::new(),
        },
    };
    let tools = match fm_get(&entries, "tools") {
        Some(v) => parse_csv(v.as_str()),
        None => Vec::new(),
    };
    let persona = match fm_get(&entries, "persona") {
        Some(v) => v,
        None => {
            let mut p = String::from_str("You are a background autonomous agent named '");
            p.append(name.as_str());
            p.append("'. Be concise, action-oriented, and explicit about changes.");
            p
        },
    };
    let body_trim = trim_str(body.as_str());
    let instructions = if body_trim.as_str().unicode_len() > 0 {
        body_trim
    } else {
        match fm_get2(&entries, "instructions", "prompt") {
            Some(v) => trim_str(v.as_str()),
            None => String::new(),
        }
    };
    if instructions.as_str().unicode_len() == 0 {
        return Err(RecipeError::MissingInstructions);
    }
    Ok(
        AgentRecipe {
            name,
            description,
            interval_secs,
            auto_start,
            trigger_events,
            trigger_variables,
            tools,
            persona,
            instructions,
            path: String::from_str(path),
        },
    )
}

/// The text of a fresh recipe file for the given fields: front matter with
/// the name, quoted description (or a stock one), interval, auto-start
/// flag, quoted tool list (or `local`) and quoted persona, then the trimmed
/// instructions as the body.
pub open spec fn spec_render_recipe(
    name: Seq<char>,
    description: Seq<char>,
    interval_secs: u64,
    auto_start: bool,
    tools: Seq<Seq<char>>,
    persona: Seq<char>,
    instructions: Seq<char>,
) -> Seq<char> {
    let desc = if trim_seq(description).len() == 0 {
        "Custom auto-agent"@
    } else {
        trim_seq(description)
    };
    let tool_line = if tools.len() == 0 {
        "local"@
    } else {
        join_seq(tools, ',')
    };
    "---\nname: "@ + name + "\ndescription: "@ + spec_yaml_quote(desc) + "\ninterval_secs: "@
        + crate::text::dec_seq(interval_secs as int) + "\nauto_start: "@ + (if auto_start {
        "true"@
    } else {
        "false"@
    }) + "\ntools: "@ + spec_yaml_quote(tool_line) + "\npersona: "@ + spec_yaml_quote(
        trim_seq(persona),
    ) + "\n---\n"@ + trim_seq(instructions) + "\n"@
}

/// Render a recipe file from its fields.
pub fn render_recipe_markdown(
    name: &str,
    description: &str,
    interval_secs: u64,
    auto_start: bool,
    tools: &Vec<String>,
    persona: &str,
    instructions: &str,
) -> (r: String)
    ensures
        r@ == spec_render_recipe(
            name@,
            description@,
            interval_secs,
            auto_start,
            tools@.map_values(|p: String| p@),
            persona@,
            instructions@,
        ),
{
    let desc_trim = trim_str(description);
    let desc = if desc_trim.as_str().unicode_len() == 0 {
        String::from_str("Custom auto-agent")
    } else {
        desc_trim
    };
    let tool_line = if tools.len() == 0 {
        String::from_str("local")
    } else {
        join_with(tools, ',')
    };
    let mut out = String::from_str("---\nname: ");
    out.append(name);
    out.append("\ndescription: ");
    out.append(yaml_quote(desc.as_str()).as_str());
    out.append("\ninterval_secs: ");
    out.append(crate::text::u64_to_string(interval_secs).as_str());
    out.append("\nauto_start: ");
    if auto_start {
        out.append("true");
    } else {
        out.append("false");
    }
    out.append("\ntools: ");
    out.append(yaml_quote(tool_line.as_str()).as_str());
    out.append("\npersona: ");
    out.append(yaml_quote(trim_str(persona).as_str()).as_str());
    out.append("\n---\n");
    out.append(trim_str(instructions).as_str());
    out.append("\n");
    proof {
        assert(out@ =~= spec_render_recipe(
            name@,
            description@,
            interval_secs,
            auto_start,
            tools@.map_values(|p: String| p@),
            persona@,
            instructions@,
        ));
    }
    out
}

/// The directory recipes live in, under the application home.
pub fn agents_dir(home: &str) -> (r: String)
    ensures
        r@ == home@ + "/agents"@,
{
    let mut out = String::from_str(home);
    out.append("/agents");
    out
}

/// How many recipe templates ship with the library.
pub const TEMPLATE_COUNT: usize = 3;

/// The fields of the template at position `i`: a repository watchdog, a
/// release-notes drafter, and a cleanup scout.
pub open spec fn spec_template(t: RecipeTemplate, i: int) -> bool {
    if i == 0 {
        &&& t.id@ == "repo-watch"@
        &&& t.description@ == "Track repo state, test failures, and unfinished work."@
        &&& t.interval_secs == 1800
        &&& t.tools@.map_values(|p: String| p@) == seq![
            "workspace_list_files"@,
            "workspace_read_file"@,
            "workspace_run_command"@,
        ]
        &&& t.persona@
            == "You are a repository watchdog agent. Focus on risky changes, broken tests, and unfinished tasks."@
        &&& t.instructions@
            == "Inspect the repository, run quick verification commands, and summarize what changed, what failed, and what to do next."@
    } else if i == 1 {
        &&& t.id@ == "release-notes"@
        &&& t.description@ == "Draft concise release notes from recent source changes."@
        &&& t.interval_secs == 3600
        &&& t.tools@.map_values(|p: String| p@) == seq![
            "workspace_read_file"@,
            "workspace_run_command"@,
        ]
        &&& t.persona@
            == "You are a release-notes agent. Produce concise, accurate, developer-facing notes."@
        &&& t.instructions@
            == "Analyze recent project changes and draft release notes with sections: Added, Changed, Fixed, and Follow-ups."@
    } else if i == 2 {
        &&& t.id@ == "cleanup"@
        &&& t.description@ == "Find stale files and suggest safe cleanup actions."@
        &&& t.interval_secs == 7200
        &&& t.tools@.map_values(|p: String| p@) == seq![
            "workspace_list_files"@,
            "workspace_read_file"@,
            "workspace_run_command"@,
        ]
        &&& t.persona@ == "You are a codebase cleanup agent. Prefer safe, incremental improvements."@
        &&& t.instructions@
            == "Scan for stale artifacts, dead scripts, and obvious cleanup opportunities. Propose a prioritized cleanup plan."@
    } else {
        false
    }
}

/// The built-in recipe templates, in their fixed order.
pub fn recipe_templates() -> (r: Vec<RecipeTemplate>)
    ensures
        r@.len() == TEMPLATE_COUNT,
        forall|i: int| 0 <= i < r@.len() ==> spec_template(#[trigger] r@[i], i),
{
    let mut tools0: Vec<String> = Vec::new();
    tools0.push(String::from_str("workspace_list_files"));
    tools0.push(String::from_str("workspace_read_file"));
    tools0.push(String::from_str("workspace_run_command"));
    let t0 = RecipeTemplate {
        id: String::from_str("repo-watch"),
        description: String::from_str("Track repo state, test failures, and unfinished work."),
        interval_secs: 1800,
        tools: tools0,
        persona: String::from_str(
            "You are a repository watchdog agent. Focus on risky changes, broken tests, and unfinished tasks.",
        ),
        instructions: String::from_str(
            "Inspect the repository, run quick verification commands, and summarize what changed, what failed, and what to do next.",
        ),
    };
    let mut tools1: Vec<String> = Vec::new();
    tools1.push(String::from_str("workspace_read_file"));
    tools1.push(String::from_str("workspace_run_command"));
    let t1 = RecipeTemplate {
        id: String::from_str("release-notes"),
        description: String::from_str("Draft concise release notes from recent source changes."),
        interval_secs: 3600,
        tools: tools1,
        persona: String::from_str(
            "You are a release-notes agent. Produce concise, accurate, developer-facing notes.",
        ),
        instructions: String::from_str(
            "Analyze recent project changes and draft release notes with sections: Added, Changed, Fixed, and Follow-ups.",
        ),
    };
    let mut tools2: Vec<String> = Vec::new();
    tools2.push(String::from_str("workspace_list_files"));
    tools2.push(String::from_str("workspace_read_file"));
    tools2.push(String::from_str("workspace_run_command"));
    let t2 = RecipeTemplate {
        id: String::from_str("cleanup"),
        description: String::from_str("Find stale files and suggest safe cleanup actions."),
        interval_secs: 7200,
        tools: tools2,
        persona: String::from_str(
            "You are a codebase cleanup agent. Prefer safe, incremental improvements.",
        ),
        instructions: String::from_str(
            "Scan for stale artifacts, dead scripts, and obvious cleanup opportunities. Propose a prioritized cleanup plan.",
        ),
    };
    proof {
        assert(t0.tools@.map_values(|p: String| p@) =~= seq![
            "workspace_list_files"@,
            "workspace_read_file"@,
            "workspace_run_command"@,
        ]);
        assert(t1.tools@.map_values(|p: String| p@) =~= seq![
            "workspace_read_file"@,
            "workspace_run_command"@,
        ]);
        assert(t2.tools@.map_values(|p: String| p@) =~= seq![
            "workspace_list_files"@,
            "workspace_read_file"@,
            "workspace_run_command"@,
        ]);
    }
    let mut out: Vec<RecipeTemplate> = Vec::new();
    out.push(t0);
    out.push(t1);
    out.push(t2);
    out
}

/// Whether `t` is one of the built-in templates.
pub open spec fn spec_is_builtin_template(t: RecipeTemplate) -> bool {
    spec_template(t, 0) || spec_template(t, 1) || spec_template(t, 2)
}

/// Whether the trimmed query names one of the built-in templates, compared
/// without case.
pub open spec fn spec_names_builtin_template(id: Seq<char>) -> bool {
    ||| eq_ignore_case(trim_seq(id), "repo-watch"@)
    ||| eq_ignore_case(trim_seq(id), "release-notes"@)
    ||| eq_ignore_case(trim_seq(id), "cleanup"@)
}

/// Find the template whose id equals the trimmed query up to case: exactly
/// the queries naming a built-in template find one.
pub fn recipe_template_by_id(id: &str) -> (r: Option<RecipeTemplate>)
    ensures
        match r {
            Some(t) => spec_is_builtin_template(t) && eq_ignore_case(trim_seq(id@), t.id@)
                && spec_names_builtin_template(id@),
            None => !spec_names_builtin_template(id@),
        },
{
    let query = trim_str(id);
    let mut templates = recipe_templates();
    let mut i: usize = 0;
    while i < templates.len()
        invariant
            templates@.len() == TEMPLATE_COUNT,
            forall|j: int| 0 <= j < templates@.len() ==> spec_template(#[trigger] templates@[j], j),
            query@ == trim_seq(id@),
            0 <= i <= templates@.len(),
            forall|j: int|
                0 <= j < i ==> !eq_ignore_case(query@, (#[trigger] templates@[j]).id@),
        decreases templates@.len() - i,
    {
        if eq_ignore_ascii_case(templates[i].id.as_str(), query.as_str()) {
            let ghost pos: int = i as int;
            let t = templates.remove(i);
            proof {
                assert(spec_template(t, pos));
                assert(eq_ignore_case(trim_seq(id@), t.id@));
            }
            return Some(t);
        }
        i = i + 1;
    }
    proof {
        assert(!eq_ignore_case(query@, "repo-watch"@)) by {
            assert(templates@[0].id@ == "repo-watch"@);
        }
        assert(!eq_ignore_case(query@, "release-notes"@)) by {
            assert(templates@[1].id@ == "release-notes"@);
        }
        assert(!eq_ignore_case(query@, "cleanup"@)) by {
            assert(templates@[2].id@ == "cleanup"@);
        }
    }
    None
}

} // verus!
