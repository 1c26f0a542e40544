//! What a notification says and where it goes, and whether one goes out.

use crate::diff::names;
use vstd::prelude::*;
use vstd::string::StringExecFns;

verus! {

/// The webhook address for a chat platform: Slack takes the configured
/// address as it is, Discord takes it with `/slack` appended, and any other
/// platform has none.
pub open spec fn endpoint_for(platform: Seq<char>, webhook_url: Seq<char>) -> Option<Seq<char>> {
    if platform == "slack"@ {
        Some(webhook_url)
    } else if platform == "discord"@ {
        Some(webhook_url + "/slack"@)
    } else {
        None
    }
}

/// One line `+ <name>` for each name, in order.
pub open spec fn entry_lines(ns: Seq<Seq<char>>) -> Seq<char>
    decreases ns.len(),
{
    if ns.len() == 0 {
        Seq::empty()
    } else {
        entry_lines(ns.drop_last()) + "+ "@ + ns.last() + "\n"@
    }
}

/// The text announcing the new subdomains `ns` of domain `d`.
pub open spec fn message_text(d: Seq<char>, ns: Seq<Seq<char>>) -> Seq<char> {
    "New subdomains for "@ + d + ":\n"@ + entry_lines(ns)
}

/// The webhook address for `platform`, or `None` for a platform that is
/// neither `slack` nor `discord`.
pub fn webhook_endpoint(platform: &String, webhook_url: &String) -> (r: Option<String>)
    ensures
        match r {
            Some(e) => endpoint_for(platform@, webhook_url@) == Some(e@),
            None => endpoint_for(platform@, webhook_url@) is None,
        },
{
    let slack = String::from_str("slack");
    let discord = String::from_str("discord");
    if *platform == slack {
        Some(webhook_url.clone())
    } else if *platform == discord {
        let mut e = webhook_url.clone();
        e.append("/slack");
        Some(e)
    } else {
        None
    }
}

/// The text announcing the names of `added` as new subdomains of `domain`.
pub fn notification_text(domain: &String, added: &Vec<String>) -> (r: String)
    ensures
        r@ == message_text(domain@, names(added@)),
{
    let mut text = String::from_str("New subdomains for ");
    text.append(domain.as_str());
    text.append(":\n");
    let mut i: usize = 0;
    while i < added.len()
        invariant
            0 <= i <= added.len(),
            text@ == message_text(domain@, names(added@).subrange(0, i as int)),
        decreases added.len() - i,
    {
        text.append("+ ");
        text.append(added[i].as_str());
        text.append("\n");
        proof {
            let pre = names(added@).subrange(0, i as int);
            let post = names(added@).subrange(0, i + 1);
            assert(post.drop_last() == pre);
            assert(post.last() == added@[i as int]@);
            assert(text@ =~= message_text(domain@, post));
        }
        i += 1;
    }
    assert(names(added@).subrange(0, added.len() as int) == names(added@));
    text
}

/// What to do about notifying after a domain was reconciled.
#[derive(Debug)]
pub enum NotifyStep {
    /// Nothing to announce.
    Quiet,
    /// Post `text` to `endpoint`.
    Send { endpoint: String, text: String },
    /// The platform is unknown: the cycle stops here.
    Halt,
}

/// Decides the notification for `domain` once `added` is known: none when
/// nothing was added (unless `debug` asks for one anyway), a halt when the
/// platform is unknown, and otherwise the message and where to post it.
pub fn notify_step(
    platform: &String,
    webhook_url: &String,
    domain: &String,
    added: &Vec<String>,
    debug: bool,
) -> (r: NotifyStep)
    ensures
        added@.len() == 0 && !debug ==> r is Quiet,
        (added@.len() > 0 || debug) && endpoint_for(platform@, webhook_url@) is None ==> r is Halt,
        (added@.len() > 0 || debug) && endpoint_for(platform@, webhook_url@) is Some ==> (
        r matches NotifyStep::Send { endpoint, text } && Some(endpoint@) == endpoint_for(
            platform@,
            webhook_url@,
        ) && text@ == message_text(domain@, names(added@))),
{
    if added.len() == 0 && !debug {
        return NotifyStep::Quiet;
    }
    match webhook_endpoint(platform, webhook_url) {
        Some(endpoint) => NotifyStep::Send { endpoint, text: notification_text(domain, added) },
        None => NotifyStep::Halt,
    }
}

} // verus!
