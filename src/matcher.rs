//! Topic lists turned into whole-word regular expressions.

use vstd::prelude::*;

verus! {

#[verifier::external_type_specification]
#[verifier::external_body]
pub struct ExRegex(regex::Regex);

/// Characters that carry meaning in a pattern and are escaped in a topic.
pub open spec fn is_meta(c: char) -> bool {
    c == '\\' || c == '.' || c == '+' || c == '*' || c == '?' || c == '(' || c == ')' || c
        == '|' || c == '[' || c == ']' || c == '{' || c == '}' || c == '^' || c == '$' || c
        == '#' || c == '&' || c == '-' || c == '~'
}

/// A topic with a backslash in front of every meta character.
pub open spec fn escaped(s: Seq<char>) -> Seq<char>
    decreases s.len(),
{
    if s.len() == 0 {
        Seq::empty()
    } else if is_meta(s.last()) {
        escaped(s.drop_last()) + seq!['\\', s.last()]
    } else {
        escaped(s.drop_last()).push(s.last())
    }
}

/// `(\b<topic>\b)`: the topic as a whole word, taken literally.
pub open spec fn word_pattern(topic: Seq<char>) -> Seq<char> {
    seq!['(', '\\', 'b'] + escaped(topic) + seq!['\\', 'b', ')']
}

/// The alternation of the word patterns of all topics, joined by `|`.
pub open spec fn topics_pattern(topics: Seq<Seq<char>>) -> Seq<char>
    decreases topics.len(),
{
    if topics.len() == 0 {
        Seq::empty()
    } else if topics.len() == 1 {
        word_pattern(topics[0])
    } else {
        topics_pattern(topics.drop_last()) + seq!['|'] + word_pattern(topics.last())
    }
}

/// Whether the regex engine accepts `pattern` (syntax and size limits).
pub uninterp spec fn regex_compiles(pattern: Seq<char>) -> bool;

/// Whether the compiled `pattern` finds a match anywhere in `text`.
pub uninterp spec fn regex_finds(pattern: Seq<char>, text: Seq<char>) -> bool;

/// Relies on regex::escape: every meta character gets a backslash in front,
/// every other character is copied.
#[verifier::external_body]
fn escape_topic(topic: &str) -> (r: String)
    ensures
        r@ == escaped(topic@),
{
    regex::escape(topic)
}

/// Relies on regex::Regex::new: it compiles `pattern`, or fails when the
/// pattern is not valid or too large.
#[verifier::external_body]
fn compile_regex(pattern: &str) -> (r: Option<regex::Regex>)
    ensures
        r is Some <==> regex_compiles(pattern@),
{
    regex::Regex::new(pattern).ok()
}

/// Relies on regex::Regex::is_match on the regex that `Matcher::compile`
/// built from `m.pattern` (both fields are private and set only there).
#[verifier::external_body]
fn regex_is_match(m: &Matcher, text: &str) -> (r: bool)
    ensures
        r == regex_finds(m.pattern@, text@),
{
    m.re.is_match(text)
}

/// Builds the pattern source: each topic as an escaped whole-word
/// alternative, `|` between them.
pub fn build_pattern(topics: &Vec<String>) -> (r: String)
    ensures
        r@ == topics_pattern(topics@.map_values(|t: String| t@)),
{
    let ghost ts = topics@.map_values(|t: String| t@);
    let mut p = String::new();
    let mut i: usize = 0;
    while i < topics.len()
        invariant
            i <= topics.len(),
            ts == topics@.map_values(|t: String| t@),
            p@ == topics_pattern(ts.subrange(0, i as int)),
        decreases topics.len() - i,
    {
        let ghost before = ts.subrange(0, i as int);
        let ghost after = ts.subrange(0, i + 1);
        assert(after.drop_last() == before);
        assert(after.last() == topics@[i as int]@);
        proof {
            reveal_strlit("(\\b");
            reveal_strlit("\\b)");
            reveal_strlit("|");
        }
        let ghost prev = p@;
        if i > 0 {
            p.append("|");
        }
        p.append("(\\b");
        let e = escape_topic(topics[i].as_str());
        p.append(e.as_str());
        p.append("\\b)");
        proof {
            if i == 0 {
                assert(p@ =~= word_pattern(after[0]));
            } else {
                assert(p@ =~= prev + seq!['|'] + word_pattern(after.last()));
            }
        }
        i = i + 1;
    }
    assert(ts.subrange(0, i as int) == ts);
    p
}

/// A compiled whole-word matcher, with the pattern it was compiled from.
#[derive(Debug)]
pub struct Matcher {
    pattern: String,
    re: regex::Regex,
}

impl Matcher {
    /// The pattern source this matcher was compiled from.
    pub closed spec fn pattern_spec(&self) -> Seq<char> {
        self.pattern@
    }

    /// Compiles the word pattern of `topics`; `None` when the engine refuses it.
    pub fn compile(topics: &Vec<String>) -> (r: Option<Matcher>)
        ensures
            r is Some <==> regex_compiles(topics_pattern(topics@.map_values(|t: String| t@))),
            r matches Some(m) ==> m.pattern_spec() == topics_pattern(
                topics@.map_values(|t: String| t@),
            ),
    {
        let pattern = build_pattern(topics);
        match compile_regex(pattern.as_str()) {
            Some(re) => Some(Matcher { pattern, re }),
            None => None,
        }
    }

    /// Whether `text` holds a match of the pattern.
    pub fn is_match(&self, text: &str) -> (r: bool)
        ensures
            r == regex_finds(self.pattern_spec(), text@),
    {
        regex_is_match(self, text)
    }

    /// The pattern source.
    pub fn pattern(&self) -> (r: &str)
        ensures
            r@ == self.pattern_spec(),
    {
        self.pattern.as_str()
    }
}

} // verus!
