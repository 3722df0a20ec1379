//! The registry of commands, keyed by trigger.
use vstd::prelude::*;

use crate::command::{Command, CommandConfig, CommandSpec};

verus! {

pub open spec fn specs_of(v: Seq<Command>) -> Seq<CommandSpec> {
    v.map_values(|c: Command| c@)
}

/// The mapping from trigger to definition that `defs` gives, where a later
/// definition replaces an earlier one with the same trigger.
pub open spec fn registry_of(defs: Seq<CommandSpec>) -> Map<Seq<char>, CommandSpec>
    decreases defs.len(),
{
    if defs.len() == 0 {
        Map::empty()
    } else {
        registry_of(defs.drop_last()).insert(defs.last().prompt, defs.last())
    }
}

pub open spec fn unique_prompts(defs: Seq<CommandSpec>) -> bool {
    forall|i: int, j: int| 0 <= i < j < defs.len() ==> defs[i].prompt != defs[j].prompt
}

/// A trigger is registered exactly when some definition carries it.
pub proof fn lemma_registry_domain(defs: Seq<CommandSpec>, k: Seq<char>)
    ensures
        registry_of(defs).contains_key(k) <==> exists|i: int|
            0 <= i < defs.len() && (#[trigger] defs[i]).prompt == k,
    decreases defs.len(),
{
    if defs.len() > 0 {
        let rest = defs.drop_last();
        lemma_registry_domain(rest, k);
        if registry_of(rest).contains_key(k) {
            let i = choose|i: int| 0 <= i < rest.len() && (#[trigger] rest[i]).prompt == k;
            assert(defs[i] == rest[i]);
        }
        if exists|i: int| 0 <= i < defs.len() && (#[trigger] defs[i]).prompt == k {
            let i = choose|i: int| 0 <= i < defs.len() && (#[trigger] defs[i]).prompt == k;
            if i < defs.len() - 1 {
                assert(rest[i] == defs[i]);
            }
        }
    }
}

/// Among definitions that share a trigger, the registry keeps the one
/// declared last.
pub proof fn lemma_last_definition_wins(defs: Seq<CommandSpec>, j: int)
    requires
        0 <= j < defs.len(),
        forall|l: int| j < l < defs.len() ==> (#[trigger] defs[l]).prompt != defs[j].prompt,
    ensures
        registry_of(defs).contains_key(defs[j].prompt),
        registry_of(defs)[defs[j].prompt] == defs[j],
    decreases defs.len(),
{
    if j < defs.len() - 1 {
        let rest = defs.drop_last();
        assert(rest[j] == defs[j]);
        assert forall|l: int| j < l < rest.len() implies (#[trigger] rest[l]).prompt
            != rest[j].prompt by {
            assert(rest[l] == defs[l]);
        }
        lemma_last_definition_wins(rest, j);
        assert(defs[defs.len() - 1].prompt != defs[j].prompt);
    }
}

/// Commands keyed by their trigger, built once and then only read.
///
/// The commands are held in a vector with one entry per trigger: `lookup`
/// is a linear scan over it, and building runs one such scan per
/// definition, so it takes time quadratic in the number of definitions.
pub struct CommandRegistry {
    commands: Vec<Command>,
}

/// The position in `commands` of the command triggered by `trigger`, if any.
fn position(commands: &Vec<Command>, trigger: &String) -> (r: Option<usize>)
    ensures
        match r {
            Some(j) => j < commands@.len() && commands@[j as int]@.prompt == trigger@,
            None => forall|j: int|
                0 <= j < commands@.len() ==> (#[trigger] commands@[j])@.prompt != trigger@,
        },
{
    let mut j: usize = 0;
    while j < commands.len()
        invariant
            j <= commands@.len(),
            forall|l: int| 0 <= l < j ==> (#[trigger] commands@[l])@.prompt != trigger@,
        decreases commands@.len() - j,
    {
        if commands[j].prompt == *trigger {
            return Some(j);
        }
        j = j + 1;
    }
    None
}

impl View for CommandRegistry {
    type V = Map<Seq<char>, CommandSpec>;

    closed spec fn view(&self) -> Map<Seq<char>, CommandSpec> {
        registry_of(specs_of(self.commands@))
    }
}

impl CommandRegistry {
    /// Each trigger is held by one stored command.
    pub closed spec fn wf(&self) -> bool {
        unique_prompts(specs_of(self.commands@))
    }

    /// The registry of `config`'s commands; where two share a trigger, the
    /// later one is kept.
    pub fn from_config(config: CommandConfig) -> (r: Self)
        ensures
            r.wf(),
            r@ == registry_of(specs_of(config.commands@)),
    {
        let ghost all = specs_of(config.commands@);
        let mut pending = config.commands;
        let mut stored: Vec<Command> = Vec::new();
        assert(registry_of(specs_of(stored@)) =~= Map::empty());
        assert(all =~= specs_of(pending@));
        assert(registry_of(all) =~= registry_of(all).union_prefer_right(Map::empty()));
        while pending.len() > 0
            invariant
                unique_prompts(specs_of(stored@)),
                registry_of(all) == registry_of(specs_of(pending@)).union_prefer_right(
                    registry_of(specs_of(stored@)),
                ),
            decreases pending@.len(),
        {
            let ghost before = specs_of(pending@);
            let ghost kept = specs_of(stored@);
            let popped = pending.pop();
            if let Some(c) = popped {
                let ghost k = c@.prompt;
                assert(specs_of(pending@) =~= before.drop_last());
                assert(before.last() == c@);
                proof {
                    lemma_registry_domain(kept, k);
                }
                match position(&stored, &c.prompt) {
                    Some(j) => {
                        assert(kept[j as int].prompt == k);
                        assert(registry_of(all) =~= registry_of(specs_of(pending@)).union_prefer_right(
                            registry_of(kept),
                        ));
                    },
                    None => {
                        stored.push(c);
                        assert(specs_of(stored@) =~= kept.push(c@));
                        assert(forall|j: int| 0 <= j < kept.len() ==> #[trigger] kept[j] == specs_of(
                            stored@,
                        )[j]);
                        assert(!registry_of(kept).contains_key(k));
                        assert(kept.push(c@).drop_last() =~= kept);
                        assert(registry_of(specs_of(stored@)) == registry_of(kept).insert(k, c@));
                        assert(registry_of(all) =~= registry_of(specs_of(pending@)).union_prefer_right(
                            registry_of(specs_of(stored@)),
                        ));
                    },
                }
            }
        }
        assert(registry_of(all) =~= registry_of(specs_of(stored@)));
        CommandRegistry { commands: stored }
    }

    /// The command that `trigger` invokes, if any.
    pub fn lookup(&self, trigger: &str) -> (r: Option<&Command>)
        requires
            self.wf(),
        ensures
            match r {
                Some(c) => self@.contains_key(trigger@) && self@[trigger@] == c@,
                None => !self@.contains_key(trigger@),
            },
    {
        let t = trigger.to_owned();
        let ghost defs = specs_of(self.commands@);
        match position(&self.commands, &t) {
            Some(j) => {
                proof {
                    assert(defs[j as int].prompt == trigger@);
                    lemma_last_definition_wins(defs, j as int);
                }
                Some(&self.commands[j])
            },
            None => {
                proof {
                    lemma_registry_domain(defs, trigger@);
                    assert forall|i: int| 0 <= i < defs.len() implies (#[trigger] defs[i]).prompt
                        != trigger@ by {
                        assert(defs[i] == self.commands@[i]@);
                    }
                }
                None
            },
        }
    }
}

} // verus!
