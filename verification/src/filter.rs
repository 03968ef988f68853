//! The URL filter: a block list of rules, read from lines of text. A rule
//! blocks by substring, by regular expression, or by the domain of the host.
//! A URL is allowed unless a rule blocks it.

use crate::config::{Config, ConfigView};
use crate::error::ProxyResult;
use crate::origin::{parse_url, parsed_url};
use crate::text::{
    chars_of, contains, ends_with, has_substring, has_suffix, lemma_lowercase_keeps,
    lemma_position_is, lemma_trim_keeps, lines, lowercase, occurs_at, same_text, split_lines, text_of, to_lower, trim,
    trimmed, views,
};
use vstd::prelude::*;
use vstd::slice::slice_subrange;

verus! {

/// A compiled regular expression of the `regex` crate, of which Verus sees nothing.
#[verifier::external_type_specification]
#[verifier::external_body]
pub struct ExRegex(regex::Regex);

/// The pattern that a compiled regular expression was made from, as
/// `Regex::as_str` returns it.
pub uninterp spec fn regex_source(re: regex::Regex) -> Seq<char>;

/// Whether the `regex` crate accepts a pattern.
pub uninterp spec fn regex_accepts(pattern: Seq<char>) -> bool;

/// Whether the regular expression that `Regex::new` makes of a pattern
/// matches somewhere in a text.
pub uninterp spec fn regex_finds(pattern: Seq<char>, haystack: Seq<char>) -> bool;

/// Whether a compiled regular expression matches somewhere in a text, as its
/// `is_match` reports it. Two expressions of one source may differ in this,
/// where they were built with different options.
pub uninterp spec fn regex_hits(re: regex::Regex, haystack: Seq<char>) -> bool;

/// `Regex::new` of the `regex` crate: whether a pattern compiles depends on
/// the pattern alone; what comes out holds that pattern as its source, and
/// what it matches depends on the pattern alone.
#[verifier::external_body]
fn compile_pattern(pattern: &str) -> (r: Option<regex::Regex>)
    ensures
        r is Some == regex_accepts(pattern@),
        r matches Some(re) ==> regex_source(re) == pattern@ && forall|haystack: Seq<char>|
            #[trigger] regex_hits(re, haystack) == regex_finds(pattern@, haystack),
{
    regex::Regex::new(pattern).ok()
}

/// `Regex::is_match` of the `regex` crate: whether there is a match depends
/// on the expression and the text alone.
#[verifier::external_body]
fn pattern_matches(re: &regex::Regex, haystack: &str) -> (r: bool)
    ensures
        r == regex_hits(*re, haystack@),
{
    re.is_match(haystack)
}

/// A pattern with the regular expression that `Regex::new` has made of it.
/// None can be made in another way, so the expression matches what the
/// pattern says under the default options.
#[derive(Debug)]
pub struct Pattern {
    compiled: regex::Regex,
}

impl Pattern {
    #[verifier::type_invariant]
    spec fn made_by_default(self) -> bool {
        forall|haystack: Seq<char>| #[trigger]
            regex_hits(self.compiled, haystack) == regex_finds(
                regex_source(self.compiled),
                haystack,
            )
    }

    /// The pattern.
    pub closed spec fn source(self) -> Seq<char> {
        regex_source(self.compiled)
    }

    /// Compiles a pattern, where the `regex` crate accepts it.
    pub fn compile(pattern: &str) -> (r: Option<Pattern>)
        ensures
            r is Some == regex_accepts(pattern@),
            r matches Some(p) ==> p.source() == pattern@,
    {
        match compile_pattern(pattern) {
            Some(compiled) => Some(Pattern { compiled }),
            None => None,
        }
    }

    /// Whether the pattern matches somewhere in a text.
    pub fn is_match(&self, haystack: &str) -> (r: bool)
        ensures
            r == regex_finds(self.source(), haystack@),
    {
        proof {
            use_type_invariant(self);
        }
        pattern_matches(&self.compiled, haystack)
    }
}

/// A rule of the filter.
#[derive(Debug)]
pub enum FilterRule {
    /// Blocks a URL that holds this text.
    Exact(String),
    /// Blocks a URL in which this pattern matches.
    Regex(Pattern),
    /// Blocks a URL whose host is this domain, written with a dot in front,
    /// or lies under it.
    Domain(String),
}

/// `FilterRule` with its text, or the pattern that it was compiled from, as a
/// sequence of characters.
pub enum RuleView {
    Exact(Seq<char>),
    Regex(Seq<char>),
    Domain(Seq<char>),
}

impl View for FilterRule {
    type V = RuleView;

    open spec fn view(&self) -> RuleView {
        match self {
            FilterRule::Exact(s) => RuleView::Exact(s@),
            FilterRule::Regex(pattern) => RuleView::Regex(pattern.source()),
            FilterRule::Domain(d) => RuleView::Domain(d@),
        }
    }
}

/// Whether a host falls under a domain rule. For a rule with a dot in front,
/// the host ends with the rule or is the rule without that dot; for any other
/// rule the host is the rule.
pub open spec fn host_in_domain(host: Seq<char>, domain: Seq<char>) -> bool {
    if domain.len() > 0 && domain[0] == '.' {
        ends_with(host, domain) || host == domain.skip(1)
    } else {
        host == domain
    }
}

/// Whether a domain rule blocks a URL: by its host, taken to lowercase unless
/// case matters; never, where it has no host; by substring, where it is no URL.
pub open spec fn domain_blocks(domain: Seq<char>, url: Seq<char>, case_sensitive: bool) -> bool {
    match parsed_url(url) {
        Err(_) => contains(url, domain),
        Ok(u) => match u.host {
            None => false,
            Some(h) => host_in_domain(
                if case_sensitive {
                    h
                } else {
                    lowercase(h)
                },
                domain,
            ),
        },
    }
}

/// Whether a rule blocks a URL.
pub open spec fn rule_blocks(rule: RuleView, url: Seq<char>, case_sensitive: bool) -> bool {
    match rule {
        RuleView::Exact(s) => contains(url, s),
        RuleView::Regex(p) => regex_finds(p, url),
        RuleView::Domain(d) => domain_blocks(d, url, case_sensitive),
    }
}

/// Whether one of the rules blocks a URL.
pub open spec fn blocked(rules: Seq<RuleView>, url: Seq<char>, case_sensitive: bool) -> bool {
    exists|i: int| 0 <= i < rules.len() && rule_blocks(#[trigger] rules[i], url, case_sensitive)
}

/// The URL as the rules see it: in lowercase, unless case matters.
pub open spec fn probe_of(url: Seq<char>, case_sensitive: bool) -> Seq<char> {
    if case_sensitive {
        url
    } else {
        lowercase(url)
    }
}

/// A rule that is there already changes nothing when it is added again.
pub proof fn lemma_rule_again(
    rules: Seq<RuleView>,
    rule: RuleView,
    url: Seq<char>,
    case_sensitive: bool,
)
    requires
        rules.contains(rule),
    ensures
        blocked(rules.push(rule), url, case_sensitive) == blocked(rules, url, case_sensitive),
{
    let more = rules.push(rule);
    if blocked(more, url, case_sensitive) {
        let i = choose|i: int|
            0 <= i < more.len() && rule_blocks(#[trigger] more[i], url, case_sensitive);
        if i < rules.len() {
            assert(rules[i] == more[i]);
        } else {
            let k = choose|k: int| 0 <= k < rules.len() && rules[k] == rule;
            assert(rule_blocks(rules[k], url, case_sensitive));
        }
    }
    if blocked(rules, url, case_sensitive) {
        let i = choose|i: int|
            0 <= i < rules.len() && rule_blocks(#[trigger] rules[i], url, case_sensitive);
        assert(more[i] == rules[i]);
    }
}

/// Adding the same rule twice blocks what adding it once blocks.
pub proof fn lemma_rule_twice(
    rules: Seq<RuleView>,
    rule: RuleView,
    url: Seq<char>,
    case_sensitive: bool,
)
    ensures
        blocked(rules.push(rule).push(rule), url, case_sensitive) == blocked(
            rules.push(rule),
            url,
            case_sensitive,
        ),
{
    let once = rules.push(rule);
    assert(once[rules.len() as int] == rule);
    lemma_rule_again(once, rule, url, case_sensitive);
}

/// The rule that a line holds. The line is trimmed; an empty line and a line
/// that begins with `#` hold none. The rule's text is the line, in lowercase
/// unless case matters. In extended mode it is a regular expression if it
/// compiles as one and a substring if not; else it is a domain if the line
/// begins with a dot and a substring if not.
pub open spec fn rule_of_line(line: Seq<char>, case_sensitive: bool, extended: bool) -> Option<
    RuleView,
> {
    let t = trim(line);
    if t.len() == 0 || t[0] == '#' {
        None
    } else {
        let text = if case_sensitive {
            t
        } else {
            lowercase(t)
        };
        if extended {
            if regex_accepts(text) {
                Some(RuleView::Regex(text))
            } else {
                Some(RuleView::Exact(text))
            }
        } else if t[0] == '.' {
            Some(RuleView::Domain(text))
        } else {
            Some(RuleView::Exact(text))
        }
    }
}

/// The rules that lines hold, in order.
pub open spec fn rules_in(ls: Seq<Seq<char>>, case_sensitive: bool, extended: bool) -> Seq<
    RuleView,
>
    decreases ls.len(),
{
    if ls.len() == 0 {
        Seq::empty()
    } else {
        let before = rules_in(ls.drop_last(), case_sensitive, extended);
        match rule_of_line(ls.last(), case_sensitive, extended) {
            Some(rule) => before.push(rule),
            None => before,
        }
    }
}

/// The views of a list of rules.
pub open spec fn rule_views(rules: Seq<FilterRule>) -> Seq<RuleView> {
    Seq::new(rules.len(), |i: int| rules[i]@)
}

/// A filter that holds the same line twice blocks what it blocks with the
/// line once.
pub proof fn lemma_line_twice(
    ls: Seq<Seq<char>>,
    line: Seq<char>,
    url: Seq<char>,
    case_sensitive: bool,
    extended: bool,
)
    ensures
        blocked(rules_in(ls.push(line).push(line), case_sensitive, extended), url, case_sensitive)
            == blocked(rules_in(ls.push(line), case_sensitive, extended), url, case_sensitive),
{
    let once = ls.push(line);
    let twice = once.push(line);
    assert(once.drop_last() =~= ls);
    assert(twice.drop_last() =~= once);
    match rule_of_line(line, case_sensitive, extended) {
        Some(rule) => {
            lemma_rule_twice(rules_in(ls, case_sensitive, extended), rule, url, case_sensitive);
        },
        None => {},
    }
}

/// Outside extended mode, a line of small ASCII letters holds the substring
/// rule of its text, whether or not case matters.
pub proof fn lemma_plain_line(line: Seq<char>, case_sensitive: bool)
    requires
        line.len() > 0,
        forall|i: int| 0 <= i < line.len() ==> 'a' <= (#[trigger] line[i]) <= 'z',
    ensures
        rule_of_line(line, case_sensitive, false) == Some(RuleView::Exact(line)),
        rules_in(lines(line), case_sensitive, false) == seq![RuleView::Exact(line)],
{
    assert forall|j: int| 0 <= j < line.len() implies line[j] != '\n' by {
        assert('a' <= line[j] <= 'z');
    }
    lemma_position_is(line, '\n', line.len() as int);
    assert(lines(line) =~= seq![line]);
    assert('a' <= line[0] <= 'z');
    assert('a' <= line[line.len() - 1] <= 'z');
    lemma_trim_keeps(line);
    lemma_lowercase_keeps(line);
    let ls = seq![line];
    assert(ls.drop_last() =~= Seq::<Seq<char>>::empty());
    assert(rules_in(Seq::<Seq<char>>::empty(), case_sensitive, false) =~= Seq::<RuleView>::empty());
    assert(rules_in(ls, case_sensitive, false) =~= seq![RuleView::Exact(line)]);
}

fn read_rule(line: &[char], case_sensitive: bool, extended: bool) -> (r: Option<FilterRule>)
    ensures
        match r {
            Some(rule) => rule_of_line(line@, case_sensitive, extended) == Some(rule@),
            None => rule_of_line(line@, case_sensitive, extended) is None,
        },
{
    let t = trimmed(line);
    if t.len() == 0 || t[0] == '#' {
        return None;
    }
    let text = if case_sensitive {
        text_of(t.as_slice())
    } else {
        text_of(to_lower(t.as_slice()).as_slice())
    };
    if extended {
        match Pattern::compile(text.as_str()) {
            Some(pattern) => Some(FilterRule::Regex(pattern)),
            None => Some(FilterRule::Exact(text)),
        }
    } else if t[0] == '.' {
        Some(FilterRule::Domain(text))
    } else {
        Some(FilterRule::Exact(text))
    }
}

/// The block list.
#[derive(Debug)]
pub struct Filter {
    enabled: bool,
    rules: Vec<FilterRule>,
    case_sensitive: bool,
    extended: bool,
}

impl Filter {
    /// Whether the filter is enabled.
    pub closed spec fn enabled(self) -> bool {
        self.enabled
    }

    /// Whether case matters to the rules.
    pub closed spec fn case_sensitive(self) -> bool {
        self.case_sensitive
    }

    /// Whether rules are read as regular expressions.
    pub closed spec fn extended(self) -> bool {
        self.extended
    }

    /// The rules, in the order in which they were read.
    pub closed spec fn rules(self) -> Seq<RuleView> {
        rule_views(self.rules@)
    }

    /// Whether the filter blocks a URL: it is enabled and one of its rules
    /// blocks the URL as the rules see it.
    pub open spec fn blocks(self, url: Seq<char>) -> bool {
        self.enabled() && blocked(
            self.rules(),
            probe_of(url, self.case_sensitive()),
            self.case_sensitive(),
        )
    }

    /// Whether this is the filter of a configuration with the rules of
    /// `source`, the text of its filter file: without a text, and where the
    /// configuration does not filter, it has no rules.
    pub open spec fn built_from(self, config: ConfigView, source: Option<Seq<char>>) -> bool {
        &&& self.enabled() == config.filter_urls
        &&& self.case_sensitive() == config.filter_casesensitive
        &&& self.extended() == config.filter_extended
        &&& self.rules() == match source {
            Some(text) => if config.filter_urls {
                rules_in(lines(text), config.filter_casesensitive, config.filter_extended)
            } else {
                Seq::empty()
            },
            None => Seq::empty(),
        }
    }

    /// The filter of a configuration, with the rules of `source`, the text of
    /// its filter file.
    pub fn new(config: &Config, source: Option<&str>) -> (filter: Filter)
        ensures
            filter.built_from(
                config@,
                match source {
                    Some(text) => Some(text@),
                    None => None,
                },
            ),
    {
        let mut filter = Filter {
            enabled: config.filter_urls,
            rules: Vec::new(),
            case_sensitive: config.filter_casesensitive,
            extended: config.filter_extended,
        };
        assert(filter.rules() =~= Seq::<RuleView>::empty());
        if config.filter_urls {
            match source {
                Some(text) => {
                    filter.load_rules(text);
                    assert(Seq::<RuleView>::empty() + rules_in(
                        lines(text@),
                        config@.filter_casesensitive,
                        config@.filter_extended,
                    ) =~= rules_in(
                        lines(text@),
                        config@.filter_casesensitive,
                        config@.filter_extended,
                    ));
                },
                None => {},
            }
        }
        filter
    }

    /// Adds the rules that the lines of a text hold.
    pub fn load_rules(&mut self, content: &str)
        ensures
            final(self).rules() == old(self).rules() + rules_in(
                lines(content@),
                old(self).case_sensitive(),
                old(self).extended(),
            ),
            final(self).enabled() == old(self).enabled(),
            final(self).case_sensitive() == old(self).case_sensitive(),
            final(self).extended() == old(self).extended(),
    {
        let chars = chars_of(content);
        let ls = split_lines(chars.as_slice());
        let ghost lv = views(ls@);
        let ghost start = self.rules();
        let case_sensitive = self.case_sensitive;
        let extended = self.extended;
        let mut i: usize = 0;
        proof {
            assert(lv.take(0) =~= Seq::<Seq<char>>::empty());
            assert(start + rules_in(lv.take(0), case_sensitive, extended) =~= start);
        }
        while i < ls.len()
            invariant
                i <= ls.len(),
                lv == views(ls@),
                self.enabled == old(self).enabled,
                self.case_sensitive == case_sensitive,
                self.extended == extended,
                self.rules() == start + rules_in(lv.take(i as int), case_sensitive, extended),
            decreases ls.len() - i,
        {
            proof {
                assert(lv.take(i + 1).drop_last() =~= lv.take(i as int));
                assert(lv.take(i + 1).last() == ls@[i as int]@);
            }
            let ghost before = self.rules();
            match read_rule(ls[i].as_slice(), case_sensitive, extended) {
                Some(rule) => {
                    self.rules.push(rule);
                    proof {
                        assert(self.rules() =~= before.push(rule@));
                        assert(before.push(rule@) =~= start + rules_in(
                            lv.take(i + 1),
                            case_sensitive,
                            extended,
                        ));
                    }
                },
                None => {},
            }
            i += 1;
        }
        proof {
            assert(lv.take(ls.len() as int) =~= lv);
        }
    }

    /// Whether a URL is allowed: always, where the filter is not enabled;
    /// else unless a rule blocks it.
    pub fn is_allowed(&self, url: &str) -> (r: ProxyResult<bool>)
        ensures
            r matches Ok(allowed) && allowed == !self.blocks(url@),
    {
        if !self.enabled {
            return Ok(true);
        }
        let chars = chars_of(url);
        let probe = if self.case_sensitive {
            chars
        } else {
            to_lower(chars.as_slice())
        };
        let probe_text = text_of(probe.as_slice());
        let mut i: usize = 0;
        while i < self.rules.len()
            invariant
                i <= self.rules.len(),
                self.enabled,
                self.rules().len() == self.rules.len(),
                probe@ == probe_of(url@, self.case_sensitive),
                probe_text@ == probe@,
                forall|j: int|
                    0 <= j < i ==> !rule_blocks(
                        #[trigger] self.rules()[j],
                        probe@,
                        self.case_sensitive,
                    ),
            decreases self.rules.len() - i,
        {
            assert(self.rules()[i as int] == self.rules@[i as int]@);
            if self.matches_rule(&self.rules[i], probe_text.as_str()) {
                return Ok(false);
            }
            i += 1;
        }
        Ok(true)
    }

    /// Whether a rule blocks a URL as the rules see it.
    pub fn matches_rule(&self, rule: &FilterRule, url: &str) -> (r: bool)
        ensures
            r == rule_blocks(rule@, url@, self.case_sensitive()),
    {
        match rule {
            FilterRule::Exact(pattern) => {
                let hay = chars_of(url);
                let needle = chars_of(pattern.as_str());
                has_substring(hay.as_slice(), needle.as_slice())
            },
            FilterRule::Regex(pattern) => pattern.is_match(url),
            FilterRule::Domain(domain) => {
                let d = chars_of(domain.as_str());
                match parse_url(url) {
                    Err(_) => {
                        let hay = chars_of(url);
                        has_substring(hay.as_slice(), d.as_slice())
                    },
                    Ok(parts) => match parts.host {
                        None => false,
                        Some(h) => {
                            let host = if self.case_sensitive {
                                chars_of(h.as_str())
                            } else {
                                to_lower(chars_of(h.as_str()).as_slice())
                            };
                            if d.len() > 0 && d[0] == '.' {
                                let bare = slice_subrange(d.as_slice(), 1, d.len());
                                proof {
                                    assert(d@.subrange(1, d.len() as int) =~= d@.skip(1));
                                }
                                has_suffix(host.as_slice(), d.as_slice()) || same_text(
                                    host.as_slice(),
                                    bare,
                                )
                            } else {
                                same_text(host.as_slice(), d.as_slice())
                            }
                        },
                    },
                }
            },
        }
    }

    /// Whether the filter is enabled.
    pub fn is_enabled(&self) -> (r: bool)
        ensures
            r == self.enabled(),
    {
        self.enabled
    }

    /// The number of rules.
    pub fn rule_count(&self) -> (n: usize)
        ensures
            n == self.rules().len(),
    {
        self.rules.len()
    }
}

/// A filter whose one rule is the substring `ads` blocks
/// `http://ads.example.com/` and does not block `http://example.com/`.
pub proof fn lemma_substring_rule_blocks(filter: Filter)
    requires
        filter.enabled(),
        filter.rules() == seq![RuleView::Exact("ads"@)],
    ensures
        filter.blocks("http://ads.example.com/"@),
        !filter.blocks("http://example.com/"@),
{
    let ads = seq!['a', 'd', 's'];
    let with_ads = seq![
        'h', 't', 't', 'p', ':', '/', '/', 'a', 'd', 's', '.', 'e', 'x', 'a', 'm', 'p', 'l', 'e',
        '.', 'c', 'o', 'm', '/',
    ];
    let without = seq![
        'h', 't', 't', 'p', ':', '/', '/', 'e', 'x', 'a', 'm', 'p', 'l', 'e', '.', 'c', 'o', 'm',
        '/',
    ];
    assert("ads"@ =~= ads) by {
        reveal_strlit("ads");
    }
    assert("http://ads.example.com/"@ =~= with_ads) by {
        reveal_strlit("http://ads.example.com/");
    }
    assert("http://example.com/"@ =~= without) by {
        reveal_strlit("http://example.com/");
    }
    lemma_lowercase_keeps(with_ads);
    lemma_lowercase_keeps(without);
    let rules = filter.rules();
    let cs = filter.case_sensitive();
    assert(probe_of(with_ads, cs) == with_ads);
    assert(probe_of(without, cs) == without);
    assert(with_ads.subrange(7, 10) =~= ads);
    assert(occurs_at(with_ads, ads, 7));
    assert(rule_blocks(rules[0], with_ads, cs));
    assert forall|i: int| !occurs_at(without, ads, i) by {
        if occurs_at(without, ads, i) {
            assert(without.subrange(i, i + 3)[0] == without[i]);
            assert(without.subrange(i, i + 3)[1] == without[i + 1]);
            assert(without[i] == 'a' && without[i + 1] == 'd');
        }
    }
}

} // verus!
