//! From one chat message to the reply it calls for.
use vstd::prelude::*;

use crate::command::{opt_view, reply_of, CommandSpec, UserContext};
use crate::registry::CommandRegistry;
use crate::text::{split_words, strs_view, words};

verus! {

/// The reply that `message` from the caller `ctx` calls for under the
/// commands `registry`: none for a message without words or whose first
/// word is no trigger, and otherwise the command's reply to the other words.
pub open spec fn response_of(
    registry: Map<Seq<char>, CommandSpec>,
    message: Seq<char>,
    ctx: UserContext,
) -> Option<Seq<char>> {
    let w = words(message);
    if w.len() == 0 || !registry.contains_key(w[0]) {
        None
    } else {
        reply_of(registry[w[0]], w.drop_first(), ctx)
    }
}

/// Splits a message into components, with the first component being
/// treated as a potential command, and the rest as arguments to that
/// command.
/// Ex: !shoutout hello  world!
///     command   arg[0] arg[1]
pub fn get_message_components(message: &str) -> (r: Option<(&str, Vec<&str>)>)
    ensures
        match r {
            None => words(message@).len() == 0,
            Some((command, args)) => words(message@).len() > 0 && command@ == words(message@)[0]
                && strs_view(args@) == words(message@).drop_first(),
        },
{
    let mut parts = split_words(message);
    if parts.len() == 0 {
        return None;
    }
    let ghost all = parts@;
    let first = parts.remove(0);
    assert(strs_view(parts@) =~= strs_view(all).drop_first());
    Some((first, parts))
}

/// The reply to send for `message` from the caller `user_context`, if any.
pub fn respond(registry: &CommandRegistry, message: &str, user_context: UserContext) -> (r: Option<
    String,
>)
    requires
        registry.wf(),
    ensures
        opt_view(r) == response_of(registry@, message@, user_context),
{
    match get_message_components(message) {
        Some((command_str, args)) => match registry.lookup(command_str) {
            Some(command) => command.get_reply(args.as_slice(), user_context),
            None => None,
        },
        None => None,
    }
}

} // verus!
