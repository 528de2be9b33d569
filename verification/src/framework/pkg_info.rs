//! Information about this bot framework: its name, version and home page.

use vstd::prelude::*;
use crate::util::text::chars_of;
use crate::util::text::push_str_chars;
use crate::util::text::string_from_chars;

verus! {

/// The name of this framework's package.
pub const CRATE_NAME: &'static str = "irc-bot";

/// The version of this framework's package.
pub const CRATE_VERSION: &'static str = "0.2.1";

/// The version control description of the framework's source, where one was recorded (none is).
pub const GIT_VERSION: &'static str = "";

/// The home page of this framework.
pub const CRATE_HOMEPAGE: &'static str = "https://github.com/8573/irc-bot.rs";

/// Whether `c` is a control character (general category Cc, the C0 and C1 control codes), as
/// `char::is_control` documents.
pub open spec fn is_control(c: char) -> bool {
    (c as u32) <= 0x1f || (0x7f <= (c as u32) && (c as u32) <= 0x9f)
}

/// Whether `s` is fit for display: not empty, and without control characters.
pub open spec fn is_displayable(s: Seq<char>) -> bool {
    s.len() > 0 && forall|i: int| 0 <= i < s.len() ==> !is_control(#[trigger] s[i])
}

/// The first string of `list` that is fit for display, if any.
pub open spec fn first_displayable(list: Seq<Seq<char>>) -> Option<Seq<char>>
    decreases list.len(),
{
    if list.len() == 0 {
        None
    } else if is_displayable(list[0]) {
        Some(list[0])
    } else {
        first_displayable(list.drop_first())
    }
}

fn is_control_exec(c: char) -> (r: bool)
    ensures
        r == is_control(c),
{
    (c as u32) <= 0x1f || (0x7f <= (c as u32) && (c as u32) <= 0x9f)
}

fn is_displayable_exec(s: &str) -> (r: bool)
    ensures
        r == is_displayable(s@),
{
    let cs = chars_of(s);
    if cs.len() == 0 {
        return false;
    }
    let mut i: usize = 0;
    while i < cs.len()
        invariant
            i <= cs@.len(),
            cs@ == s@,
            forall|j: int| 0 <= j < i ==> !is_control(cs@[j]),
        decreases cs@.len() - i,
    {
        if is_control_exec(cs[i]) {
            assert(is_control(s@[i as int]));
            return false;
        }
        i += 1;
    }
    true
}

/// Returns the first string of `list` that is not empty and has no control characters, or
/// `"<unknown>"` if there is none.
pub fn choose_displayable<'a>(list: &[&'a str]) -> (r: &'a str)
    ensures
        match first_displayable(list@.map_values(|s: &str| s@)) {
            Some(t) => r@ == t,
            None => r@ == "<unknown>"@,
        },
{
    let ghost views = list@.map_values(|s: &str| s@);
    assert(views.skip(0) =~= views);
    let mut i: usize = 0;
    while i < list.len()
        invariant
            i <= list@.len(),
            views == list@.map_values(|s: &str| s@),
            first_displayable(views) == first_displayable(views.skip(i as int)),
        decreases list@.len() - i,
    {
        assert(views.skip(i as int)[0] == list@[i as int]@);
        assert(views.skip(i as int).drop_first() =~= views.skip(i + 1));
        if is_displayable_exec(list[i]) {
            return list[i];
        }
        i += 1;
    }
    assert(views.skip(i as int).len() == 0);
    "<unknown>"
}

/// The first string of `list` that is fit for display, or `"<unknown>"`.
pub open spec fn displayable_or_unknown(list: Seq<Seq<char>>) -> Seq<char> {
    match first_displayable(list) {
        Some(t) => t,
        None => "<unknown>"@,
    }
}

/// The crate's name, or `"<unknown>"`.
pub fn framework_crate_name() -> (r: &'static str)
    ensures
        r@ == displayable_or_unknown(seq![CRATE_NAME@]),
{
    let list = [CRATE_NAME];
    assert(list@.map_values(|s: &str| s@) =~= seq![CRATE_NAME@]);
    choose_displayable(&list)
}

/// Version information for the framework (its recorded source version, or else the package
/// version), or `"<unknown>"`. This is meant for display, not for machines.
pub fn framework_version_str() -> (r: &'static str)
    ensures
        r@ == displayable_or_unknown(seq![GIT_VERSION@, CRATE_VERSION@]),
{
    let list = [GIT_VERSION, CRATE_VERSION];
    assert(list@.map_values(|s: &str| s@) =~= seq![GIT_VERSION@, CRATE_VERSION@]);
    choose_displayable(&list)
}

/// The URL of a Web page about the framework, or `"<unknown>"`.
pub fn framework_homepage_url_str() -> (r: &'static str)
    ensures
        r@ == displayable_or_unknown(seq![CRATE_HOMEPAGE@]),
{
    let list = [CRATE_HOMEPAGE];
    assert(list@.map_values(|s: &str| s@) =~= seq![CRATE_HOMEPAGE@]);
    choose_displayable(&list)
}

/// The short credit line: `Built with <URL> VERSION`, with the framework's home page and version.
pub open spec fn brief_credits() -> Seq<char> {
    "Built with <"@ + displayable_or_unknown(seq![CRATE_HOMEPAGE@]) + "> "@ + displayable_or_unknown(
        seq![GIT_VERSION@, CRATE_VERSION@],
    )
}

/// A short credit line: `Built with <URL> VERSION`, with the framework's home page and version.
pub fn brief_credits_string() -> (r: String)
    ensures
        r@ == brief_credits(),
{
    let url = framework_homepage_url_str();
    let ver = framework_version_str();
    let mut acc: Vec<char> = Vec::new();
    push_str_chars(&mut acc, "Built with <");
    push_str_chars(&mut acc, url);
    push_str_chars(&mut acc, "> ");
    push_str_chars(&mut acc, ver);
    assert(acc@ =~= brief_credits());
    string_from_chars(acc.as_slice())
}

} // verus!
