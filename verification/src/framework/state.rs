//! Questions the bot answers from its state: who its administrators are.

use vstd::prelude::*;
use super::config::Admin;
use super::err::FrameworkError;
use super::irc_msgs::MsgPrefix;
use crate::util::text::{decimal, push_decimal, push_str_chars, str_eq, string_from_chars};

verus! {

/// Whether a field of a user's (nick, user, host) triple, the candidate, matches the
/// corresponding field of an administrator's record, the control: a field unset in the control
/// matches anything; a field set there must be set, and equal, in the candidate.
pub open spec fn admin_cred_matches(candidate: Option<Seq<char>>, control: Option<Seq<char>>) -> bool {
    match (candidate, control) {
        (Some(cdt), Some(ctl)) => cdt == ctl,
        (_, None) => true,
        (None, Some(_)) => false,
    }
}

/// The view of an optional string.
pub open spec fn opt_view(s: Option<String>) -> Option<Seq<char>> {
    match s {
        Some(x) => Some(x@),
        None => None,
    }
}

/// Checks a field of a user's (nick, user, host) triple, the candidate, against the
/// corresponding field of an administrator's record, the control (see
/// [`admin_cred_matches`]).
pub fn check_admin_cred(candidate: Option<&str>, control: &Option<String>) -> (r: bool)
    ensures
        r == admin_cred_matches(
            match candidate {
                Some(c) => Some(c@),
                None => None,
            },
            opt_view(*control),
        ),
{
    match (candidate, control) {
        (Some(cdt), Some(ctl)) => crate::util::text::str_eq(cdt, ctl.as_str()),
        (_, None) => true,
        (None, Some(_)) => false,
    }
}

/// Whether the sender `prefix` matches the administrator record `admin` in all three fields.
pub open spec fn is_this_admin(prefix: MsgPrefix, admin: Admin) -> bool {
    &&& admin_cred_matches(opt_view(prefix.nick), opt_view(admin.nick))
    &&& admin_cred_matches(opt_view(prefix.user), opt_view(admin.user))
    &&& admin_cred_matches(opt_view(prefix.host), opt_view(admin.host))
}

fn opt_str(s: &Option<String>) -> (r: Option<&str>)
    ensures
        match r {
            Some(c) => opt_view(*s) == Some(c@),
            None => opt_view(*s) is None,
        },
{
    match s {
        Some(x) => Some(x.as_str()),
        None => None,
    }
}

/// Whether the sender `prefix` is one of the bot's administrators `admins`: whether it
/// matches some administrator's record in all three fields.
pub fn have_admin(admins: &[Admin], prefix: &MsgPrefix) -> (r: bool)
    ensures
        r == exists|i: int| 0 <= i < admins@.len() && is_this_admin(*prefix, #[trigger] admins@[i]),
{
    let mut i: usize = 0;
    while i < admins.len()
        invariant
            i <= admins@.len(),
            forall|k: int| 0 <= k < i ==> !is_this_admin(*prefix, #[trigger] admins@[k]),
        decreases admins@.len() - i,
    {
        let a = &admins[i];
        if check_admin_cred(opt_str(&prefix.nick), &a.nick) && check_admin_cred(opt_str(&prefix.user), &a.user)
            && check_admin_cred(opt_str(&prefix.host), &a.host) {
            assert(is_this_admin(*prefix, admins@[i as int]));
            return true;
        }
        i += 1;
    }
    false
}

/// An administrator record with no field set admits every sender, and one whose fields are all
/// set admits exactly the sender with those three fields.
pub proof fn lemma_admin_records(prefix: MsgPrefix, admin: Admin)
    ensures
        admin.nick is None && admin.user is None && admin.host is None ==> is_this_admin(prefix, admin),
        (admin.nick is Some && admin.user is Some && admin.host is Some) ==> (is_this_admin(prefix, admin) <==> (
            opt_view(prefix.nick) == opt_view(admin.nick)
            && opt_view(prefix.user) == opt_view(admin.user)
            && opt_view(prefix.host) == opt_view(admin.host))),
{
}

/// The fields that an owner-authentication policy compares, (nickname, username): `nick+user`
/// both, `nick-only` the nickname, `user-only` the username; any other policy is not known.
pub open spec fn owner_policy_fields(policy: Seq<char>) -> Option<(bool, bool)> {
    if policy == "nick+user"@ {
        Some((true, true))
    } else if policy == "nick-only"@ {
        Some((true, false))
    } else if policy == "user-only"@ {
        Some((false, true))
    } else {
        None
    }
}

/// Whether the owner name `owner` admits the sender `prefix` under a policy that compares the
/// nickname (`match_nick`) and the username (`match_user`) with it.
pub open spec fn owner_admits(owner: Seq<char>, match_nick: bool, match_user: bool, prefix: MsgPrefix) -> bool {
    (!match_nick || opt_view(prefix.nick) == Some(owner)) && (!match_user || opt_view(prefix.user) == Some(owner))
}

/// Whether the sender `prefix` is one of the bot's owners `owners`, under the configured
/// owner-authentication policy (`nick-only` where none is configured); an unknown policy is a
/// configuration error.
pub fn have_owner(policy: Option<&str>, owners: &Option<Vec<String>>, prefix: &MsgPrefix) -> (r: Result<bool, FrameworkError>)
    ensures
        match owner_policy_fields(match policy {
            Some(p) => p@,
            None => "nick-only"@,
        }) {
            None => r matches Err(FrameworkError::Config(k, p))
                && k@ == "owner-auth-check-policy"@ && p@ == "is not `nick+user`, `nick-only`, or `user-only`"@,
            Some((match_nick, match_user)) => r matches Ok(b) && b == match *owners {
                None => false,
                Some(v) => exists|i: int| 0 <= i < v@.len() && owner_admits(#[trigger] v@[i]@, match_nick, match_user, *prefix),
            },
        },
{
    let p = match policy {
        Some(p) => p,
        None => "nick-only",
    };
    let (match_nick, match_user) = if str_eq(p, "nick+user") {
        (true, true)
    } else if str_eq(p, "nick-only") {
        (true, false)
    } else if str_eq(p, "user-only") {
        (false, true)
    } else {
        return Err(FrameworkError::Config(
            "owner-auth-check-policy".to_owned(),
            "is not `nick+user`, `nick-only`, or `user-only`".to_owned(),
        ));
    };
    let v = match owners {
        None => {
            return Ok(false);
        },
        Some(v) => v,
    };
    let mut i: usize = 0;
    while i < v.len()
        invariant
            i <= v@.len(),
            owner_policy_fields(p@) == Some((match_nick, match_user)),
            p@ == match policy {
                Some(q) => q@,
                None => "nick-only"@,
            },
            *owners == Some(*v),
            forall|k: int| 0 <= k < i ==> !owner_admits(#[trigger] v@[k]@, match_nick, match_user, *prefix),
        decreases v@.len() - i,
    {
        let owner = v[i].as_str();
        let nick_ok = !match_nick || match &prefix.nick {
            Some(n) => str_eq(n.as_str(), owner),
            None => false,
        };
        let user_ok = !match_user || match &prefix.user {
            Some(u) => str_eq(u.as_str(), owner),
            None => false,
        };
        if nick_ok && user_ok {
            assert(owner_admits(v@[i as int]@, match_nick, match_user, *prefix));
            assert(owners->Some_0 == *v);
            return Ok(true);
        }
        i += 1;
    }
    Ok(false)
}

/// How a server's address is shown in the log: `host:port`, with a placeholder for what is not
/// known.
pub open spec fn socket_addr_text(host: Option<Seq<char>>, port: Option<u16>) -> Seq<char> {
    (match host {
        Some(h) => h,
        None => "<unknown hostname>"@,
    }) + seq![':'] + (match port {
        Some(p) => decimal(p as nat),
        None => "<unknown port>"@,
    })
}

/// How a server's address is shown in the log (see [`socket_addr_text`]).
pub fn socket_addr_string(host: Option<&str>, port: Option<u16>) -> (r: String)
    ensures
        r@ == socket_addr_text(
            match host {
                Some(h) => Some(h@),
                None => None,
            },
            port,
        ),
{
    let mut acc: Vec<char> = Vec::new();
    match host {
        Some(h) => push_str_chars(&mut acc, h),
        None => push_str_chars(&mut acc, "<unknown hostname>"),
    }
    acc.push(':');
    match port {
        Some(p) => push_decimal(p as usize, &mut acc),
        None => push_str_chars(&mut acc, "<unknown port>"),
    }
    string_from_chars(acc.as_slice())
}

/// The bot's message prefix as first assumed, before the server has told it its host:
/// `nickname!username@`.
pub fn initial_msg_prefix(nickname: &str, username: &str) -> (r: String)
    ensures
        r@ == nickname@ + seq!['!'] + username@ + seq!['@'],
{
    let mut acc: Vec<char> = Vec::new();
    push_str_chars(&mut acc, nickname);
    acc.push('!');
    push_str_chars(&mut acc, username);
    acc.push('@');
    string_from_chars(acc.as_slice())
}

} // verus!
