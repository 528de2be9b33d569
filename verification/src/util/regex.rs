//! Regexes configured by type: a wrapper around `regex::Regex` whose type parameter says how
//! its pattern text is turned into a regex (anchored, case-insensitive, size-limited).

use std::marker::PhantomData;
use vstd::prelude::*;
use super::text::chars_of;
use super::text::push_str_chars;
use super::text::string_from_chars;

verus! {

#[verifier::external_type_specification]
#[verifier::external_body]
pub struct ExRegex(regex::Regex);

#[verifier::external_type_specification]
#[verifier::external_body]
pub struct ExRegexError(regex::Error);

/// The size limit, in bytes, for compiled regexes and their lazy DFAs where one is set.
pub const REGEX_SIZE_LIMIT: usize = 131072;

/// How a regex is to be built: the pattern and the settings of `regex::RegexBuilder`.
#[derive(Clone, Debug)]
pub struct RegexSettings {
    /// The pattern text.
    pub pattern: String,
    /// Whether letters match regardless of case.
    pub case_insensitive: bool,
    /// The compiled-program and lazy-DFA size limit, if one is set.
    pub size_limit: Option<usize>,
}

/// Regex settings as a mathematical value.
pub ghost struct SettingsView {
    pub pattern: Seq<char>,
    pub case_insensitive: bool,
    pub size_limit: Option<usize>,
}

impl View for RegexSettings {
    type V = SettingsView;

    open spec fn view(&self) -> SettingsView {
        SettingsView {
            pattern: self.pattern@,
            case_insensitive: self.case_insensitive,
            size_limit: self.size_limit,
        }
    }
}

/// A name for whether `regex::RegexBuilder::build` succeeds on a pattern with the given
/// settings.
pub uninterp spec fn regex_builds(pattern: Seq<char>, case_insensitive: bool, size_limit: Option<usize>) -> bool;

/// A name for what `regex::Regex::is_match` answers for a regex built from the given settings
/// and the given haystack.
pub uninterp spec fn regex_matches(
    pattern: Seq<char>,
    case_insensitive: bool,
    size_limit: Option<usize>,
    haystack: Seq<char>,
) -> bool;

/// A compiled regex together with the settings it was built from.
#[derive(Debug)]
pub struct CompiledRegex {
    inner: regex::Regex,
    settings: RegexSettings,
}

impl CompiledRegex {
    /// The settings the regex was built from.
    pub closed spec fn settings(&self) -> SettingsView {
        self.settings@
    }

    /// Whether this regex matches somewhere in the given text.
    pub open spec fn matches(&self, haystack: Seq<char>) -> bool {
        regex_matches(
            self.settings().pattern,
            self.settings().case_insensitive,
            self.settings().size_limit,
            haystack,
        )
    }

    /// Builds a regex by calling `regex::RegexBuilder::new` with the pattern,
    /// `case_insensitive`, `size_limit` and `dfa_size_limit` as the settings say, and `build`.
    /// The contract claims only that success is [`regex_builds`] of the settings, and that the
    /// regex built keeps its settings.
    #[verifier::external_body]
    pub fn build(settings: RegexSettings) -> (r: Result<CompiledRegex, regex::Error>)
        ensures
            r is Ok <==> regex_builds(
                settings@.pattern,
                settings@.case_insensitive,
                settings@.size_limit,
            ),
            r matches Ok(rx) ==> rx.settings() == settings@,
    {
        let mut builder = regex::RegexBuilder::new(&settings.pattern);
        builder.case_insensitive(settings.case_insensitive);
        if let Some(limit) = settings.size_limit {
            builder.size_limit(limit);
            builder.dfa_size_limit(limit);
        }
        builder.build().map(|inner| CompiledRegex { inner, settings })
    }

    /// Whether the regex matches somewhere in `haystack`, by calling `regex::Regex::is_match`.
    /// The contract claims only that the answer is [`regex_matches`] of the regex's settings and
    /// the haystack.
    #[verifier::external_body]
    pub fn is_match(&self, haystack: &str) -> (r: bool)
        ensures
            r == regex_matches(
                self.settings().pattern,
                self.settings().case_insensitive,
                self.settings().size_limit,
                haystack@,
            ),
    {
        self.inner.is_match(haystack)
    }

    /// The compiled `regex::Regex` that this value holds.
    pub closed spec fn compiled_regex(&self) -> regex::Regex {
        self.inner
    }

    /// The compiled `regex::Regex`, the one that [`CompiledRegex::is_match`] asks.
    pub fn into_inner(self) -> (r: regex::Regex)
        ensures
            r == self.compiled_regex(),
    {
        self.inner
    }
}

/// The settings of a plain regex for a pattern.
pub open spec fn standard_settings(input: Seq<char>) -> SettingsView {
    SettingsView { pattern: input, case_insensitive: false, size_limit: None }
}

/// This is a supporting trait for [`ConfiguredRegex`]: an implementation says how a pattern text is to be
/// turned into a regex's settings.
pub trait RegexConfig {
    /// The settings for the given pattern text.
    spec fn settings_for(input: Seq<char>) -> SettingsView;

    /// Returns the settings with which the given pattern text is to be built.
    fn builder_from_str(input: &str) -> (r: RegexSettings)
        ensures
            r@ == Self::settings_for(input@),
    ;

    /// Must have the same effect as `builder_from_str`; it may reuse the given `String`.
    fn builder_from_string(input: String) -> (r: RegexSettings)
        ensures
            r@ == Self::settings_for(input@),
    {
        Self::builder_from_str(input.as_str())
    }
}

/// The default configuration: the pattern as given, with the `regex` crate's defaults.
#[derive(Debug)]
pub struct Standard;

/// A configuration that wraps the pattern in `\A(?:` and `)\z`, so that a regex matches a
/// string only if it matches the whole string.
#[derive(Debug)]
pub struct Anchored<Base>(PhantomData<Base>);

/// A configuration that makes regexes match without regard to letter case.
#[derive(Debug)]
pub struct CaseInsensitive<Base>(PhantomData<Base>);

/// A configuration that sets the compiled-program and lazy-DFA size limits to
/// [`REGEX_SIZE_LIMIT`].
#[derive(Debug)]
pub struct SizeLimit<Base>(PhantomData<Base>);

impl RegexConfig for Standard {
    open spec fn settings_for(input: Seq<char>) -> SettingsView {
        standard_settings(input)
    }

    fn builder_from_str(input: &str) -> (r: RegexSettings) {
        RegexSettings { pattern: input.to_owned(), case_insensitive: false, size_limit: None }
    }
}

/// The text that anchoring puts before a pattern: `\A(?:`.
pub open spec fn anchor_start() -> Seq<char> {
    seq!['\\', 'A', '(', '?', ':']
}

/// The text that anchoring puts after a pattern: `)\z`.
pub open spec fn anchor_end() -> Seq<char> {
    seq![')', '\\', 'z']
}

impl<Base: RegexConfig> RegexConfig for Anchored<Base> {
    open spec fn settings_for(input: Seq<char>) -> SettingsView {
        Base::settings_for(anchor_start() + input + anchor_end())
    }

    fn builder_from_str(input: &str) -> (r: RegexSettings) {
        let mut text: Vec<char> = Vec::new();
        text.push('\\');
        text.push('A');
        text.push('(');
        text.push('?');
        text.push(':');
        push_str_chars(&mut text, input);
        text.push(')');
        text.push('\\');
        text.push('z');
        assert(text@ =~= anchor_start() + input@ + anchor_end());
        let anchored = string_from_chars(text.as_slice());
        Base::builder_from_string(anchored)
    }
}

impl<Base: RegexConfig> RegexConfig for CaseInsensitive<Base> {
    open spec fn settings_for(input: Seq<char>) -> SettingsView {
        SettingsView { case_insensitive: true, ..Base::settings_for(input) }
    }

    fn builder_from_str(input: &str) -> (r: RegexSettings) {
        let mut rxb = Base::builder_from_str(input);
        rxb.case_insensitive = true;
        rxb
    }
}

impl<Base: RegexConfig> RegexConfig for SizeLimit<Base> {
    open spec fn settings_for(input: Seq<char>) -> SettingsView {
        SettingsView { size_limit: Some(REGEX_SIZE_LIMIT), ..Base::settings_for(input) }
    }

    fn builder_from_str(input: &str) -> (r: RegexSettings) {
        let mut rxb = Base::builder_from_str(input);
        rxb.size_limit = Some(REGEX_SIZE_LIMIT);
        rxb
    }
}

/// A regex whose pattern was turned into settings by the configuration `Cfg`.
#[derive(Debug)]
pub struct ConfiguredRegex<Cfg> {
    compiled: CompiledRegex,
    config: PhantomData<Cfg>,
}

impl<Cfg: RegexConfig> ConfiguredRegex<Cfg> {
    /// The settings the regex was built from.
    pub closed spec fn settings(&self) -> SettingsView {
        self.compiled.settings()
    }

    /// Whether the regex matches somewhere in `haystack`.
    pub open spec fn matches(&self, haystack: Seq<char>) -> bool {
        regex_matches(
            self.settings().pattern,
            self.settings().case_insensitive,
            self.settings().size_limit,
            haystack,
        )
    }

    /// Parses `input` into a regex with this configuration; fails exactly when the `regex`
    /// crate rejects the configured pattern.
    pub fn try_from_str(input: &str) -> (r: Result<Self, regex::Error>)
        ensures
            r is Ok <==> regex_builds(
                Cfg::settings_for(input@).pattern,
                Cfg::settings_for(input@).case_insensitive,
                Cfg::settings_for(input@).size_limit,
            ),
            r matches Ok(rx) ==> rx.settings() == Cfg::settings_for(input@),
    {
        Self::try_from_builder(Cfg::builder_from_str(input))
    }

    /// As [`ConfiguredRegex::try_from_str`], taking the text by value.
    pub fn try_from_string(input: String) -> (r: Result<Self, regex::Error>)
        ensures
            r is Ok <==> regex_builds(
                Cfg::settings_for(input@).pattern,
                Cfg::settings_for(input@).case_insensitive,
                Cfg::settings_for(input@).size_limit,
            ),
            r matches Ok(rx) ==> rx.settings() == Cfg::settings_for(input@),
    {
        Self::try_from_builder(Cfg::builder_from_string(input))
    }

    /// Builds a regex from the given settings.
    pub fn try_from_builder(builder: RegexSettings) -> (r: Result<Self, regex::Error>)
        ensures
            r is Ok <==> regex_builds(
                builder@.pattern,
                builder@.case_insensitive,
                builder@.size_limit,
            ),
            r matches Ok(rx) ==> rx.settings() == builder@,
    {
        match CompiledRegex::build(builder) {
            Ok(compiled) => Ok(ConfiguredRegex { compiled, config: PhantomData }),
            Err(e) => Err(e),
        }
    }

    /// Whether the regex matches somewhere in `haystack`.
    pub fn is_match(&self, haystack: &str) -> (r: bool)
        ensures
            r == self.matches(haystack@),
    {
        self.compiled.is_match(haystack)
    }

    /// The compiled `regex::Regex` that this value holds.
    pub closed spec fn compiled_regex(&self) -> regex::Regex {
        self.compiled.compiled_regex()
    }

    /// The compiled `regex::Regex`, the one that [`ConfiguredRegex::is_match`] asks.
    pub fn into_inner(self) -> (r: regex::Regex)
        ensures
            r == self.compiled_regex(),
    {
        self.compiled.into_inner()
    }
}

/// The settings of a case-insensitive, size-limited regex for a pattern.
pub open spec fn case_insensitive_settings(input: Seq<char>) -> SettingsView {
    SettingsView { pattern: input, case_insensitive: true, size_limit: Some(REGEX_SIZE_LIMIT) }
}

/// Parses a string into a case-insensitive, size-limited regex.
pub fn mk_case_insensitive_regex(s: &str) -> (r: Result<CompiledRegex, regex::Error>)
    ensures
        r is Ok <==> regex_builds(s@, true, Some(REGEX_SIZE_LIMIT)),
        r matches Ok(rx) ==> rx.settings() == case_insensitive_settings(s@),
{
    CompiledRegex::build(
        RegexSettings {
            pattern: s.to_owned(),
            case_insensitive: true,
            size_limit: Some(REGEX_SIZE_LIMIT),
        },
    )
}

/// Implemented for pattern texts and for regexes already built, so that either can be passed
/// where a regex is wanted: a text is parsed into a case-insensitive regex, and a regex is
/// taken as it is.
pub trait IntoRegexCI {
    /// Converts into a regex.
    fn into_regex_ci(self) -> Result<CompiledRegex, regex::Error>;
}

impl IntoRegexCI for CompiledRegex {
    fn into_regex_ci(self) -> (r: Result<CompiledRegex, regex::Error>)
        ensures
            r == Ok::<CompiledRegex, regex::Error>(self),
    {
        Ok(self)
    }
}

impl<'a> IntoRegexCI for &'a str {
    fn into_regex_ci(self) -> (r: Result<CompiledRegex, regex::Error>)
        ensures
            r is Ok <==> regex_builds(self@, true, Some(REGEX_SIZE_LIMIT)),
            r matches Ok(rx) ==> rx.settings() == case_insensitive_settings(self@),
    {
        mk_case_insensitive_regex(self)
    }
}

} // verus!
