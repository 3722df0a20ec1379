//! Command definitions: who may invoke them and how their replies are filled.
use vstd::prelude::*;

use crate::text::{replace_in_order, replace_patterns, strings_view, strs_view};

verus! {

/// A capability that a command may ask of its caller.
#[derive(Clone, Copy, Debug, PartialEq, Eq, Structural)]
pub enum Role {
    Broadcaster,
    Mod,
    User,
}

/// What is known of the sender of one message.
#[derive(Clone, Copy, Debug, PartialEq, Eq, Structural)]
pub struct UserContext {
    pub is_broadcaster: bool,
    pub is_mod: bool,
}

/// One invocable command.
pub struct Command {
    /// The word that invokes the command, matched exactly.
    pub prompt: String,
    /// The reply template, with `{name}` placeholders.
    pub reply: String,
    /// The placeholder names that arguments fill, in order.
    pub args: Option<Vec<String>>,
    /// Roles that this command will be executed for
    pub roles: Option<Vec<Role>>,
}

/// The commands read from configuration, in the order given.
pub struct CommandConfig {
    pub commands: Vec<Command>,
}

/// The mathematical content of a [`Command`].
pub ghost struct CommandSpec {
    pub prompt: Seq<char>,
    pub reply: Seq<char>,
    pub args: Option<Seq<Seq<char>>>,
    pub roles: Option<Seq<Role>>,
}

impl View for Command {
    type V = CommandSpec;

    open spec fn view(&self) -> CommandSpec {
        CommandSpec {
            prompt: self.prompt@,
            reply: self.reply@,
            args: match self.args {
                Some(a) => Some(strings_view(a@)),
                None => None,
            },
            roles: match self.roles {
                Some(r) => Some(r@),
                None => None,
            },
        }
    }
}

/// Whether a caller described by `ctx` holds `role`.
pub open spec fn satisfies(role: Role, ctx: UserContext) -> bool {
    match role {
        Role::Broadcaster => ctx.is_broadcaster,
        Role::Mod => ctx.is_mod,
        Role::User => true,
    }
}

/// Whether the caller `ctx` holds at least one of `roles`.
pub open spec fn holds_any(roles: Seq<Role>, ctx: UserContext) -> bool {
    exists|i: int| 0 <= i < roles.len() && satisfies(#[trigger] roles[i], ctx)
}

/// No role list admits everyone; a list admits a caller who holds any of its roles.
pub open spec fn permitted(roles: Option<Seq<Role>>, ctx: UserContext) -> bool {
    match roles {
        None => true,
        Some(rs) => holds_any(rs, ctx),
    }
}

/// The placeholder `{name}`.
pub open spec fn placeholder(name: Seq<char>) -> Seq<char> {
    seq!['{'] + name + seq!['}']
}

/// How many names have a value at their position.
pub open spec fn pair_count(names: Seq<Seq<char>>, values: Seq<Seq<char>>) -> nat {
    if names.len() <= values.len() {
        names.len()
    } else {
        values.len()
    }
}

/// The placeholders of the first `n` names.
pub open spec fn placeholders(names: Seq<Seq<char>>, n: nat) -> Seq<Seq<char>> {
    Seq::new(n, |i: int| placeholder(names[i]))
}

/// `template` with the placeholders of the names that have a value at their
/// position replaced by those values, name after name in declaration order;
/// a value is inserted as it is and never searched for a later placeholder.
pub open spec fn substitute(
    template: Seq<char>,
    names: Seq<Seq<char>>,
    values: Seq<Seq<char>>,
) -> Seq<char> {
    replace_in_order(template, placeholders(names, pair_count(names, values)), values, 0)
}

/// The reply of `cmd` to the arguments `values` from the caller `ctx`, if any.
pub open spec fn reply_of(cmd: CommandSpec, values: Seq<Seq<char>>, ctx: UserContext) -> Option<
    Seq<char>,
> {
    if !permitted(cmd.roles, ctx) {
        None
    } else {
        match cmd.args {
            None => Some(cmd.reply),
            Some(names) => Some(substitute(cmd.reply, names, values)),
        }
    }
}

pub open spec fn opt_view(r: Option<String>) -> Option<Seq<char>> {
    match r {
        Some(s) => Some(s@),
        None => None,
    }
}

/// The placeholder `{name}` as a string.
fn make_placeholder(name: &str) -> (r: String)
    ensures
        r@ == placeholder(name@),
{
    let mut p = String::new();
    p.append("{");
    p.append(name);
    p.append("}");
    proof {
        reveal_strlit("{");
        reveal_strlit("}");
    }
    assert(p@ =~= placeholder(name@));
    p
}

impl Command {
    /// Whether the caller `user_context` may invoke this command.
    pub fn is_permitted(&self, user_context: UserContext) -> (r: bool)
        ensures
            r == permitted(self@.roles, user_context),
    {
        match &self.roles {
            Some(roles) => {
                let mut i: usize = 0;
                while i < roles.len()
                    invariant
                        i <= roles@.len(),
                        self@.roles == Some(roles@),
                        forall|j: int| 0 <= j < i ==> !satisfies(#[trigger] roles@[j], user_context),
                    decreases roles@.len() - i,
                {
                    let ok = match roles[i] {
                        Role::Broadcaster => user_context.is_broadcaster,
                        Role::Mod => user_context.is_mod,
                        Role::User => true,
                    };
                    if ok {
                        assert(satisfies(roles@[i as int], user_context));
                        assert(holds_any(roles@, user_context));
                        return true;
                    }
                    i = i + 1;
                }
                false
            },
            None => true,
        }
    }

    /// The reply to the arguments `values` from the caller `user_context`:
    /// nothing for a caller without permission, the template as written
    /// where no argument names are declared, and otherwise the template
    /// with each declared name that has a value replaced by it.
    pub fn get_reply(&self, values: &[&str], user_context: UserContext) -> (r: Option<String>)
        ensures
            opt_view(r) == reply_of(self@, strs_view(values@), user_context),
    {
        if !self.is_permitted(user_context) {
            return None;
        }
        match &self.args {
            Some(args) => {
                let n = if args.len() <= values.len() {
                    args.len()
                } else {
                    values.len()
                };
                let ghost names = strings_view(args@);
                let mut patterns: Vec<String> = Vec::new();
                let mut k: usize = 0;
                while k < n
                    invariant
                        n <= args@.len(),
                        n <= values@.len(),
                        names == strings_view(args@),
                        k <= n,
                        patterns@.len() == k,
                        forall|j: int| 0 <= j < k ==> (#[trigger] patterns@[j])@ == placeholder(names[j]),
                    decreases n - k,
                {
                    patterns.push(make_placeholder(args[k].as_str()));
                    k = k + 1;
                }
                assert(strings_view(patterns@) =~= placeholders(names, pair_count(names, strs_view(values@))));
                Some(replace_patterns(self.reply.as_str(), &patterns, values))
            },
            None => Some(self.reply.clone()),
        }
    }
}

/// A command without a role list answers every caller.
pub proof fn lemma_unrestricted_answers_everyone(
    cmd: CommandSpec,
    values: Seq<Seq<char>>,
    ctx: UserContext,
)
    requires
        cmd.roles is None,
    ensures
        reply_of(cmd, values, ctx) is Some,
{
}

/// A command that declares no argument names replies with its template
/// as written, whatever the arguments.
pub proof fn lemma_no_names_reply_is_template(
    cmd: CommandSpec,
    values: Seq<Seq<char>>,
    ctx: UserContext,
)
    requires
        cmd.args is None,
        permitted(cmd.roles, ctx),
    ensures
        reply_of(cmd, values, ctx) == Some(cmd.reply),
{
}

/// A command open to moderators alone answers a caller exactly when the
/// caller is a moderator; being the broadcaster does not stand in for it.
pub proof fn lemma_moderator_only(cmd: CommandSpec, values: Seq<Seq<char>>, ctx: UserContext)
    requires
        cmd.roles == Some(seq![Role::Mod]),
    ensures
        reply_of(cmd, values, ctx) is Some <==> ctx.is_mod,
{
    if ctx.is_mod {
        assert(satisfies(seq![Role::Mod][0], ctx));
    }
}

/// The reply depends on the command's content, the arguments' text and the
/// caller alone: the same inputs give the same reply every time.
pub proof fn lemma_reply_is_deterministic(
    c1: Command,
    c2: Command,
    v1: Seq<&str>,
    v2: Seq<&str>,
    ctx: UserContext,
)
    requires
        c1@ == c2@,
        strs_view(v1) == strs_view(v2),
    ensures
        reply_of(c1@, strs_view(v1), ctx) == reply_of(c2@, strs_view(v2), ctx),
{
}

/// Names that have no argument at their position take no part: the reply is
/// that of the same command declaring only the names that have one, and their
/// placeholders stay as written.
pub proof fn lemma_unpaired_names_stay_literal(
    cmd: CommandSpec,
    values: Seq<Seq<char>>,
    ctx: UserContext,
)
    requires
        cmd.args is Some,
        values.len() < cmd.args->0.len(),
    ensures
        reply_of(cmd, values, ctx) == reply_of(
            CommandSpec { args: Some(cmd.args->0.take(values.len() as int)), ..cmd },
            values,
            ctx,
        ),
{
    let names = cmd.args->0;
    assert(placeholders(names, values.len()) =~= placeholders(
        names.take(values.len() as int),
        values.len(),
    ));
}

} // verus!
