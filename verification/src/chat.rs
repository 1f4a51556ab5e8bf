//! Pure helpers of the surrounding chat pipeline: role labels, the
//! safety policy, memory-key and memory-value normalization, the
//! fallback search query, and text normalization for comparisons.

use vstd::prelude::*;
use vstd::string::StringExecFns;

use crate::text::{
    char_in_class, char_is_alnum, char_is_space, chars_eq, chars_of, contains_chars, has_substring,
    in_class, is_unicode_alnum, is_unicode_space, join_spec, lower_of, split_whitespace_chars,
    split_ws_spec, starts_with_chars, starts_with_spec, string_from_chars, string_views,
    subvec_chars, to_lowercase, trim_chars, trim_end_chars, trim_spec, trim_end_spec, views_of,
    CharClass,
};

verus! {

/// Who authored a chat message.
#[derive(Debug, Clone, Copy, PartialEq, Eq, Structural)]
pub enum ChatRole {
    /// A human participant.
    User,
    /// The assistant.
    Assistant,
}

impl ChatRole {
    /// The wire label of the role.
    pub fn as_str(self) -> (r: &'static str)
        ensures
            self is User ==> r@ == "user"@,
            self is Assistant ==> r@ == "assistant"@,
    {
        match self {
            ChatRole::User => "user",
            ChatRole::Assistant => "assistant",
        }
    }
}

/// A request to the language-model collaborator.
#[derive(Debug, Clone)]
pub struct ModelRequest {
    /// The system prompt.
    pub system_prompt: String,
    /// The user prompt.
    pub user_prompt: String,
}

/// What a tool execution returns.
#[derive(Debug, Clone)]
pub struct ToolResult {
    /// The text handed back to the planner.
    pub text: String,
    /// Source citations, if the tool produced any.
    pub citations: Vec<String>,
}

/// Screens user messages for blocked terms.
#[derive(Debug, Clone)]
pub struct SafetyPolicy {
    /// The lowercase terms that raise a flag.
    pub blocked_terms: Vec<String>,
}

/// The flags the policy raises on a lowercased message: one per blocked
/// term that occurs in it, in policy order.
pub open spec fn safety_flags_spec(terms: Seq<String>, lowered: Seq<char>) -> Seq<Seq<char>>
    decreases terms.len(),
{
    if terms.len() == 0 {
        Seq::<Seq<char>>::empty()
    } else {
        let rest = safety_flags_spec(terms.drop_last(), lowered);
        if has_substring(lowered, terms.last()@) {
            rest.push("blocked-term:"@ + terms.last()@)
        } else {
            rest
        }
    }
}

impl Default for SafetyPolicy {
    /// The default policy blocks two well-known dangerous phrases.
    fn default() -> (p: SafetyPolicy)
        ensures
            string_views(p.blocked_terms@) == seq!["rm -rf"@, "token leak"@],
    {
        let mut blocked_terms: Vec<String> = Vec::new();
        blocked_terms.push("rm -rf".to_owned());
        blocked_terms.push("token leak".to_owned());
        proof {
            assert(string_views(blocked_terms@) =~= seq!["rm -rf"@, "token leak"@]);
        }
        SafetyPolicy { blocked_terms }
    }
}

impl SafetyPolicy {
    /// Flags every blocked term that occurs in the lowercased message,
    /// each as `blocked-term:` followed by the term.
    pub fn validate_user_message(&self, input: &str) -> (r: Vec<String>)
        ensures
            string_views(r@) == safety_flags_spec(self.blocked_terms@, lower_of(input@)),
    {
        let lowered = to_lowercase(input);
        let lowered_chars = chars_of(lowered.as_str());
        let mut r: Vec<String> = Vec::new();
        let mut i: usize = 0;
        proof {
            assert(safety_flags_spec(self.blocked_terms@.subrange(0, 0), lower_of(input@))
                =~= Seq::<Seq<char>>::empty());
            assert(string_views(r@) =~= Seq::<Seq<char>>::empty());
        }
        while i < self.blocked_terms.len()
            invariant
                i <= self.blocked_terms@.len(),
                lowered_chars@ == lower_of(input@),
                string_views(r@) == safety_flags_spec(
                    self.blocked_terms@.subrange(0, i as int),
                    lower_of(input@),
                ),
            decreases self.blocked_terms@.len() - i,
        {
            let ghost shorter = self.blocked_terms@.subrange(0, i as int);
            let ghost longer = self.blocked_terms@.subrange(0, i + 1);
            proof {
                assert(longer.drop_last() =~= shorter);
                assert(longer.last() == self.blocked_terms@[i as int]);
            }
            let term_chars = chars_of(self.blocked_terms[i].as_str());
            if contains_chars(&lowered_chars, &term_chars) {
                let mut flag = "blocked-term:".to_owned();
                flag.append(self.blocked_terms[i].as_str());
                let ghost prev = r@;
                r.push(flag);
                proof {
                    assert(string_views(r@) =~= string_views(prev).push(
                        "blocked-term:"@ + self.blocked_terms@[i as int]@,
                    ));
                }
            }
            i = i + 1;
        }
        proof {
            assert(self.blocked_terms@.subrange(0, self.blocked_terms@.len() as int)
                =~= self.blocked_terms@);
        }
        r
    }
}

/// The base system prompt of the assistant.
pub fn default_system_prompt_base() -> (r: &'static str)
    ensures
        r@
            == "You are CompanionPilot, a helpful Discord AI companion.\nKeep replies concise and practical.\nNever emit XML/JSON/pseudo tool-call markup in normal replies."@,
{
    "You are CompanionPilot, a helpful Discord AI companion.\nKeep replies concise and practical.\nNever emit XML/JSON/pseudo tool-call markup in normal replies."
}

/// Whether `c` is an ASCII letter or digit.
pub open spec fn is_ascii_alnum(c: char) -> bool {
    (48 <= c as u32 <= 57) || (65 <= c as u32 <= 90) || (97 <= c as u32 <= 122)
}

/// `c` with an ASCII uppercase letter folded to lowercase.
pub open spec fn ascii_lower(c: char) -> char {
    if 65 <= c as u32 <= 90 {
        ((c as u32 + 32) as u8) as char
    } else {
        c
    }
}

/// Folds an ASCII uppercase letter to lowercase.
fn ascii_lower_exec(c: char) -> (r: char)
    ensures
        r == ascii_lower(c),
{
    let code = c as u32;
    if 65 <= code && code <= 90 {
        ((code + 32) as u8) as char
    } else {
        c
    }
}

/// What one character of a memory key becomes: ASCII alphanumerics are
/// lowercased, everything else becomes an underscore.
pub open spec fn key_char(c: char) -> char {
    if is_ascii_alnum(c) {
        ascii_lower(c)
    } else {
        '_'
    }
}

/// `s` with every run of consecutive underscores collapsed to one.
pub open spec fn collapse_underscores(s: Seq<char>) -> Seq<char>
    decreases s.len(),
{
    if s.len() == 0 {
        Seq::<char>::empty()
    } else {
        let rest = collapse_underscores(s.drop_last());
        if s.last() == '_' && s.len() >= 2 && s[s.len() - 2] == '_' {
            rest
        } else {
            rest.push(s.last())
        }
    }
}

/// What sanitizing a memory key yields: each character mapped to a
/// lowercase alphanumeric or an underscore, underscore runs collapsed,
/// and leading and trailing underscores stripped.
pub open spec fn sanitize_memory_key_spec(s: Seq<char>) -> Seq<char> {
    trim_spec(collapse_underscores(s.map_values(|c: char| key_char(c))), CharClass::Underscore)
}

/// Normalizes a memory key to lowercase words joined by single
/// underscores.
pub fn sanitize_memory_key(raw: &str) -> (r: String)
    ensures
        r@ == sanitize_memory_key_spec(raw@),
{
    let v = chars_of(raw);
    let ghost mapped_spec = v@.map_values(|c: char| key_char(c));
    let mut mapped: Vec<char> = Vec::new();
    let mut i: usize = 0;
    while i < v.len()
        invariant
            i <= v@.len(),
            mapped_spec == v@.map_values(|c: char| key_char(c)),
            mapped@ == mapped_spec.subrange(0, i as int),
        decreases v@.len() - i,
    {
        let c = v[i];
        let code = c as u32;
        let mapped_char: char = if (48 <= code && code <= 57) || (65 <= code && code <= 90) || (97
            <= code && code <= 122) {
            ascii_lower_exec(c)
        } else {
            '_'
        };
        assert(mapped_char == key_char(v@[i as int]));
        mapped.push(mapped_char);
        assert(mapped@ =~= mapped_spec.subrange(0, i + 1));
        i = i + 1;
    }
    assert(mapped_spec.subrange(0, mapped_spec.len() as int) =~= mapped_spec);
    assert(mapped@ == mapped_spec);

    let mut collapsed: Vec<char> = Vec::new();
    let mut j: usize = 0;
    assert(collapse_underscores(mapped@.subrange(0, 0)) =~= Seq::<char>::empty());
    while j < mapped.len()
        invariant
            j <= mapped@.len(),
            collapsed@ == collapse_underscores(mapped@.subrange(0, j as int)),
        decreases mapped@.len() - j,
    {
        let ghost shorter = mapped@.subrange(0, j as int);
        let ghost longer = mapped@.subrange(0, j + 1);
        proof {
            assert(longer.drop_last() =~= shorter);
            assert(longer.last() == mapped@[j as int]);
        }
        let c = mapped[j];
        if c == '_' && j >= 1 && mapped[j - 1] == '_' {
            proof {
                assert(longer[longer.len() - 2] == mapped@[j - 1]);
            }
        } else {
            collapsed.push(c);
        }
        j = j + 1;
    }
    assert(mapped@.subrange(0, mapped@.len() as int) =~= mapped@);
    let trimmed = trim_chars(&collapsed, CharClass::Underscore);
    string_from_chars(&trimmed)
}

/// What cleaning a memory value yields: surrounding whitespace removed,
/// then surrounding quotes, then trailing sentence punctuation, then
/// whitespace again.
pub open spec fn clean_memory_value_spec(s: Seq<char>) -> Seq<char> {
    trim_spec(
        trim_end_spec(
            trim_spec(trim_spec(s, CharClass::Space), CharClass::Quote),
            CharClass::SentenceEnd,
        ),
        CharClass::Space,
    )
}

/// Strips wrapping whitespace, quotes and closing punctuation from a
/// memory value.
pub fn clean_memory_value(value: &str) -> (r: String)
    ensures
        r@ == clean_memory_value_spec(value@),
{
    let v = chars_of(value);
    let pass1 = trim_chars(&v, CharClass::Space);
    let pass2 = trim_chars(&pass1, CharClass::Quote);
    let pass3 = trim_end_chars(&pass2, CharClass::SentenceEnd);
    let pass4 = trim_chars(&pass3, CharClass::Space);
    string_from_chars(&pass4)
}

/// What one character becomes under comparison normalization:
/// alphanumerics and whitespace are ASCII-lowercased, everything else
/// becomes a space.
pub open spec fn compare_char(c: char) -> char {
    if is_unicode_alnum(c) || is_unicode_space(c) {
        ascii_lower(c)
    } else {
        ' '
    }
}

/// What normalizing for comparison yields: characters mapped by
/// [`compare_char`], then whitespace runs collapsed to single spaces
/// and the ends trimmed, by splitting on whitespace and rejoining.
pub open spec fn normalize_for_compare_spec(s: Seq<char>) -> Seq<char> {
    join_spec(split_ws_spec(s.map_values(|c: char| compare_char(c))), seq![' '])
}

/// Normalizes text for loose comparison: case, punctuation and
/// whitespace differences disappear.
pub fn normalize_for_compare(value: &str) -> (r: String)
    ensures
        r@ == normalize_for_compare_spec(value@),
{
    let v = chars_of(value);
    let ghost mapped_spec = v@.map_values(|c: char| compare_char(c));
    let mut mapped: Vec<char> = Vec::new();
    let mut i: usize = 0;
    while i < v.len()
        invariant
            i <= v@.len(),
            mapped_spec == v@.map_values(|c: char| compare_char(c)),
            mapped@ == mapped_spec.subrange(0, i as int),
        decreases v@.len() - i,
    {
        let c = v[i];
        let keep = char_is_alnum(c) || char_is_space(c);
        let mapped_char: char = if keep {
            ascii_lower_exec(c)
        } else {
            ' '
        };
        assert(mapped_char == compare_char(v@[i as int]));
        mapped.push(mapped_char);
        assert(mapped@ =~= mapped_spec.subrange(0, i + 1));
        i = i + 1;
    }
    assert(mapped_spec.subrange(0, mapped_spec.len() as int) =~= mapped_spec);
    let tokens = split_whitespace_chars(&mapped);
    let mut sep: Vec<char> = Vec::new();
    sep.push(' ');
    assert(sep@ =~= seq![' ']);
    let joined = crate::text::join_chars(&tokens, &sep);
    string_from_chars(&joined)
}

/// What a raw whitespace token contributes to the fallback query: its
/// surrounding non-alphanumeric characters stripped, then lowercased.
pub open spec fn cleaned_token(t: Seq<char>) -> Seq<char> {
    lower_of(trim_spec(t, CharClass::NonAlnum))
}

/// Whether a cleaned token is a filler word the fallback query drops.
pub open spec fn is_stopword(t: Seq<char>) -> bool {
    ||| t == "a"@
    ||| t == "an"@
    ||| t == "and"@
    ||| t == "are"@
    ||| t == "be"@
    ||| t == "can"@
    ||| t == "could"@
    ||| t == "for"@
    ||| t == "get"@
    ||| t == "i"@
    ||| t == "is"@
    ||| t == "it"@
    ||| t == "latest"@
    ||| t == "me"@
    ||| t == "my"@
    ||| t == "of"@
    ||| t == "on"@
    ||| t == "please"@
    ||| t == "search"@
    ||| t == "tell"@
    ||| t == "the"@
    ||| t == "to"@
    ||| t == "up"@
    ||| t == "what"@
    ||| t == "whats"@
    ||| t == "with"@
    ||| t == "you"@
    ||| t == "today"@
}

/// The tokens the fallback query keeps, scanning from position `i` with
/// `count` already kept: cleaned tokens that are non-empty and no
/// stopword, up to eight in all.
pub open spec fn fallback_tokens_from(tokens: Seq<Seq<char>>, i: int, count: int) -> Seq<Seq<char>>
    decreases tokens.len() - i,
{
    if i < 0 || i >= tokens.len() || count >= 8 {
        Seq::<Seq<char>>::empty()
    } else {
        let c = cleaned_token(tokens[i]);
        if c.len() == 0 || is_stopword(c) {
            fallback_tokens_from(tokens, i + 1, count)
        } else {
            seq![c] + fallback_tokens_from(tokens, i + 1, count + 1)
        }
    }
}

/// What the fallback search query is: the kept tokens joined by single
/// spaces, or the trimmed input when nothing was kept.
pub open spec fn fallback_query_spec(s: Seq<char>) -> Seq<char> {
    let kept = fallback_tokens_from(split_ws_spec(s), 0, 0);
    if kept.len() == 0 {
        trim_spec(s, CharClass::Space)
    } else {
        join_spec(kept, seq![' '])
    }
}

/// Decides whether a cleaned token is a stopword.
fn is_stopword_exec(t: &Vec<char>) -> (r: bool)
    ensures
        r == is_stopword(t@),
{
    let words = [
        "a",
        "an",
        "and",
        "are",
        "be",
        "can",
        "could",
        "for",
        "get",
        "i",
        "is",
        "it",
        "latest",
        "me",
        "my",
        "of",
        "on",
        "please",
        "search",
        "tell",
        "the",
        "to",
        "up",
        "what",
        "whats",
        "with",
        "you",
        "today",
    ];
    let mut i: usize = 0;
    while i < 28
        invariant
            i <= 28,
            words@.len() == 28,
            words@ == seq![
                "a", "an", "and", "are", "be", "can", "could", "for", "get", "i", "is", "it",
                "latest", "me", "my", "of", "on", "please", "search", "tell", "the", "to", "up",
                "what", "whats", "with", "you", "today",
            ],
            forall|k: int| 0 <= k < i ==> t@ != (#[trigger] words@[k])@,
        decreases 28 - i,
    {
        let w = chars_of(words[i]);
        if chars_eq(t, &w) {
            assert(t@ == words@[i as int]@);
            assert(is_stopword(t@)) by {
                assert(forall|k: int|
                    0 <= k < 28 ==> ((#[trigger] words@[k])@ == seq![
                        "a"@, "an"@, "and"@, "are"@, "be"@, "can"@, "could"@, "for"@, "get"@, "i"@,
                        "is"@, "it"@, "latest"@, "me"@, "my"@, "of"@, "on"@, "please"@, "search"@,
                        "tell"@, "the"@, "to"@, "up"@, "what"@, "whats"@, "with"@, "you"@, "today"@,
                    ][k]));
            }
            return true;
        }
        i = i + 1;
    }
    proof {
        if is_stopword(t@) {
            assert(exists|k: int| 0 <= k < 28 && t@ == (#[trigger] words@[k])@) by {
                if t@ == "a"@ {
                    assert(t@ == (words@[0])@);
                } else if t@ == "an"@ {
                    assert(t@ == (words@[1])@);
                } else if t@ == "and"@ {
                    assert(t@ == (words@[2])@);
                } else if t@ == "are"@ {
                    assert(t@ == (words@[3])@);
                } else if t@ == "be"@ {
                    assert(t@ == (words@[4])@);
                } else if t@ == "can"@ {
                    assert(t@ == (words@[5])@);
                } else if t@ == "could"@ {
                    assert(t@ == (words@[6])@);
                } else if t@ == "for"@ {
                    assert(t@ == (words@[7])@);
                } else if t@ == "get"@ {
                    assert(t@ == (words@[8])@);
                } else if t@ == "i"@ {
                    assert(t@ == (words@[9])@);
                } else if t@ == "is"@ {
                    assert(t@ == (words@[10])@);
                } else if t@ == "it"@ {
                    assert(t@ == (words@[11])@);
                } else if t@ == "latest"@ {
                    assert(t@ == (words@[12])@);
                } else if t@ == "me"@ {
                    assert(t@ == (words@[13])@);
                } else if t@ == "my"@ {
                    assert(t@ == (words@[14])@);
                } else if t@ == "of"@ {
                    assert(t@ == (words@[15])@);
                } else if t@ == "on"@ {
                    assert(t@ == (words@[16])@);
                } else if t@ == "please"@ {
                    assert(t@ == (words@[17])@);
                } else if t@ == "search"@ {
                    assert(t@ == (words@[18])@);
                } else if t@ == "tell"@ {
                    assert(t@ == (words@[19])@);
                } else if t@ == "the"@ {
                    assert(t@ == (words@[20])@);
                } else if t@ == "to"@ {
                    assert(t@ == (words@[21])@);
                } else if t@ == "up"@ {
                    assert(t@ == (words@[22])@);
                } else if t@ == "what"@ {
                    assert(t@ == (words@[23])@);
                } else if t@ == "whats"@ {
                    assert(t@ == (words@[24])@);
                } else if t@ == "with"@ {
                    assert(t@ == (words@[25])@);
                } else if t@ == "you"@ {
                    assert(t@ == (words@[26])@);
                } else {
                    assert(t@ == (words@[27])@);
                }
            }
        }
    }
    false
}

/// Compacts a user prompt into a retrieval-oriented query: tokens are
/// stripped of surrounding punctuation and lowercased, filler words are
/// dropped, at most eight tokens are kept, and the trimmed prompt
/// itself stands in when nothing survives.
pub fn fallback_search_query(input: &str) -> (r: String)
    ensures
        r@ == fallback_query_spec(input@),
{
    let v = chars_of(input);
    let tokens = split_whitespace_chars(&v);
    let ghost token_views = split_ws_spec(v@);
    let mut kept: Vec<Vec<char>> = Vec::new();
    let mut i: usize = 0;
    let mut count: usize = 0;
    proof {
        assert(views_of(kept@) =~= Seq::<Seq<char>>::empty());
    }
    while i < tokens.len() && count < 8
        invariant
            i <= tokens@.len(),
            count == kept@.len(),
            count <= 8,
            views_of(tokens@) == token_views,
            token_views == split_ws_spec(v@),
            v@ == input@,
            fallback_tokens_from(token_views, 0, 0) == views_of(kept@) + fallback_tokens_from(
                token_views,
                i as int,
                count as int,
            ),
        decreases tokens@.len() - i,
    {
        assert(tokens@[i as int]@ == token_views[i as int]);
        let stripped = trim_chars(&tokens[i], CharClass::NonAlnum);
        let lowered = to_lowercase(string_from_chars(&stripped).as_str());
        let cleaned = chars_of(lowered.as_str());
        assert(cleaned@ == cleaned_token(token_views[i as int]));
        if cleaned.len() > 0 && !is_stopword_exec(&cleaned) {
            let ghost prev = kept@;
            kept.push(cleaned);
            proof {
                assert(views_of(kept@) =~= views_of(prev).push(
                    cleaned_token(token_views[i as int]),
                ));
                assert(fallback_tokens_from(token_views, i as int, count as int) == seq![
                    cleaned_token(token_views[i as int]),
                ] + fallback_tokens_from(token_views, i + 1, count + 1));
                assert(views_of(kept@) + fallback_tokens_from(token_views, i + 1, count + 1)
                    =~= views_of(prev) + fallback_tokens_from(
                    token_views,
                    i as int,
                    count as int,
                ));
            }
            count = count + 1;
        } else {
            proof {
                assert(fallback_tokens_from(token_views, i as int, count as int)
                    == fallback_tokens_from(token_views, i + 1, count as int));
            }
        }
        i = i + 1;
    }
    proof {
        assert(fallback_tokens_from(token_views, i as int, count as int)
            =~= Seq::<Seq<char>>::empty());
        assert(fallback_tokens_from(token_views, 0, 0) =~= views_of(kept@));
    }
    if kept.len() == 0 {
        let trimmed = trim_chars(&v, CharClass::Space);
        return string_from_chars(&trimmed);
    }
    let mut sep: Vec<char> = Vec::new();
    sep.push(' ');
    assert(sep@ =~= seq![' ']);
    let joined = crate::text::join_chars(&kept, &sep);
    string_from_chars(&joined)
}

/// The query of an explicit `/search ` command: the trimmed remainder
/// after the prefix, if it is non-empty.
pub open spec fn search_command_spec(content: Seq<char>) -> Option<Seq<char>> {
    let t = trim_spec(content, CharClass::Space);
    if starts_with_spec(t, "/search "@) {
        let q = trim_spec(t.subrange("/search "@.len() as int, t.len() as int), CharClass::Space);
        if q.len() > 0 {
            Some(q)
        } else {
            None
        }
    } else {
        None
    }
}

/// Reads an explicit `/search ` command, yielding its non-empty query.
pub fn parse_search_command(content: &str) -> (r: Option<String>)
    ensures
        r is Some ==> search_command_spec(content@) == Some((r->0)@),
        r is None ==> search_command_spec(content@) is None,
{
    let v = chars_of(content);
    let t = trim_chars(&v, CharClass::Space);
    let prefix = chars_of("/search ");
    if !starts_with_chars(&t, &prefix) {
        return None;
    }
    let rest = subvec_chars(&t, prefix.len(), t.len());
    let q = trim_chars(&rest, CharClass::Space);
    if q.len() == 0 {
        return None;
    }
    Some(string_from_chars(&q))
}

} // verus!
