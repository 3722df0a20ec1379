use bytebot::text::{is_whitespace, replace_patterns, split_words};
use bytebot::{get_message_components, respond, Command, CommandConfig, CommandRegistry, Role, UserContext};

fn command(prompt: &str, reply: &str, args: Option<Vec<&str>>, roles: Option<Vec<Role>>) -> Command {
    Command {
        prompt: prompt.to_string(),
        reply: reply.to_string(),
        args: args.map(|a| a.into_iter().map(|s| s.to_string()).collect()),
        roles,
    }
}

fn caller(is_broadcaster: bool, is_mod: bool) -> UserContext {
    UserContext { is_broadcaster, is_mod }
}

fn everyone() -> Vec<UserContext> {
    vec![caller(false, false), caller(true, false), caller(false, true), caller(true, true)]
}

#[test]
fn blank_messages_have_no_components() {
    for m in ["", " ", "   ", "\t\n", " \u{a0}\u{3000} \r"] {
        assert!(get_message_components(m).is_none());
    }
}

#[test]
fn shoutout_components() {
    let (command, args) = get_message_components("!shoutout hello world").unwrap();
    assert_eq!(command, "!shoutout");
    assert_eq!(args, vec!["hello", "world"]);
}

#[test]
fn components_skip_runs_of_whitespace() {
    let (command, args) = get_message_components("  !shoutout hello \t world!  ").unwrap();
    assert_eq!(command, "!shoutout");
    assert_eq!(args, vec!["hello", "world!"]);
}

#[test]
fn single_word_has_no_arguments() {
    let (command, args) = get_message_components("!hi").unwrap();
    assert_eq!(command, "!hi");
    assert!(args.is_empty());
}

#[test]
fn split_words_keeps_case_and_prefix() {
    assert_eq!(split_words("!Hi  There\u{2003}x"), vec!["!Hi", "There", "x"]);
}

#[test]
fn whitespace_characters() {
    for c in [' ', '\t', '\n', '\u{b}', '\u{c}', '\r', '\u{85}', '\u{a0}', '\u{1680}', '\u{2000}', '\u{200a}', '\u{2028}', '\u{2029}', '\u{202f}', '\u{205f}', '\u{3000}'] {
        assert!(is_whitespace(c), "{:?}", c);
        assert_eq!(is_whitespace(c), c.is_whitespace());
    }
    for c in ['a', '!', '{', '\u{200b}', '\u{0}', '\u{180e}'] {
        assert!(!is_whitespace(c), "{:?}", c);
        assert_eq!(is_whitespace(c), c.is_whitespace());
    }
}

fn pats(p: &[&str]) -> Vec<String> {
    p.iter().map(|s| s.to_string()).collect()
}

#[test]
fn replace_every_occurrence() {
    assert_eq!(replace_patterns("a{x}b{x}", &pats(&["{x}"]), &["YY"]), "aYYbYY");
    assert_eq!(replace_patterns("aaaa", &pats(&["aa"]), &["b"]), "bb");
    assert_eq!(replace_patterns("aaa", &pats(&["aa"]), &["b"]), "ba");
    assert_eq!(replace_patterns("none here", &pats(&["{x}"]), &["y"]), "none here");
    assert_eq!(replace_patterns("", &pats(&["{x}"]), &["y"]), "");
    assert_eq!(replace_patterns("héllo {n}", &pats(&["{n}"]), &["wörld"]), "héllo wörld");
    assert_eq!(replace_patterns("keep", &pats(&[]), &[]), "keep");
}

#[test]
fn replace_does_not_search_inserted_text() {
    assert_eq!(replace_patterns("{x}", &pats(&["{x}"]), &["{x}{x}"]), "{x}{x}");
    assert_eq!(replace_patterns("{a}-{b}", &pats(&["{a}", "{b}"]), &["{b}", "x"]), "{b}-x");
}

#[test]
fn replace_in_declaration_order_when_placeholders_overlap() {
    assert_eq!(replace_patterns("{{x}", &pats(&["{x}", "{{x}"]), &["1", "2"]), "{1");
    let c = command("!o", "{{x}", Some(vec!["x", "{x"]), None);
    assert_eq!(c.get_reply(&["1", "2"], caller(false, false)), Some("{1".to_string()));
}

#[test]
fn later_pattern_is_sought_between_earlier_matches() {
    assert_eq!(replace_patterns("{a}{b}{a}", &pats(&["{a}", "{b}"]), &["1", "2"]), "121");
    assert_eq!(replace_patterns("x{b}y", &pats(&["{a}", "{b}"]), &["1", "2"]), "x2y");
}

#[test]
fn replace_prefers_the_earlier_pattern() {
    assert_eq!(replace_patterns("{a}b}", &pats(&["{a}", "{a}b}"]), &["1", "2"]), "1b}");
    assert_eq!(replace_patterns("{a}b}", &pats(&["{a}b}", "{a}"]), &["2", "1"]), "2");
}

#[test]
fn hello_name_for_any_caller() {
    let c = command("!hi", "hello {name}", Some(vec!["name"]), None);
    for ctx in everyone() {
        assert_eq!(c.get_reply(&["bob"], ctx), Some("hello bob".to_string()));
    }
}

#[test]
fn template_verbatim_without_names() {
    let c = command("!hi", "hello {name}", None, None);
    for ctx in everyone() {
        assert_eq!(c.get_reply(&["bob"], ctx), Some("hello {name}".to_string()));
        assert_eq!(c.get_reply(&[], ctx), Some("hello {name}".to_string()));
        assert_eq!(c.get_reply(&["a", "b", "c"], ctx), Some("hello {name}".to_string()));
    }
}

#[test]
fn broadcaster_is_not_moderator() {
    let c = command("!hi", "hello {name}", Some(vec!["name"]), Some(vec![Role::Mod]));
    assert_eq!(c.get_reply(&["bob"], caller(true, false)), None);
    assert!(!c.is_permitted(caller(true, false)));
}

#[test]
fn moderator_is_answered() {
    let c = command("!hi", "hello {name}", Some(vec!["name"]), Some(vec![Role::Mod]));
    assert_eq!(c.get_reply(&["bob"], caller(false, true)), Some("hello bob".to_string()));
}

#[test]
fn role_rules() {
    let b = command("!b", "b", None, Some(vec![Role::Broadcaster]));
    assert!(b.is_permitted(caller(true, false)));
    assert!(!b.is_permitted(caller(false, true)));
    let u = command("!u", "u", None, Some(vec![Role::User]));
    for ctx in everyone() {
        assert!(u.is_permitted(ctx));
    }
    let none = command("!n", "n", None, Some(vec![]));
    for ctx in everyone() {
        assert!(!none.is_permitted(ctx));
        assert_eq!(none.get_reply(&[], ctx), None);
    }
    let either = command("!e", "e", None, Some(vec![Role::Mod, Role::Broadcaster]));
    assert!(either.is_permitted(caller(true, false)));
    assert!(either.is_permitted(caller(false, true)));
    assert!(!either.is_permitted(caller(false, false)));
}

#[test]
fn later_definition_wins() {
    let config = CommandConfig {
        commands: vec![
            command("!x", "first", None, None),
            command("!y", "other", None, None),
            command("!x", "second", None, None),
        ],
    };
    let registry = CommandRegistry::from_config(config);
    assert_eq!(registry.lookup("!x").unwrap().reply, "second");
    assert_eq!(registry.lookup("!y").unwrap().reply, "other");
    assert!(registry.lookup("!z").is_none());
    assert!(registry.lookup("!X").is_none());
}

#[test]
fn rendering_twice_gives_the_same_reply() {
    let c = command("!hi", "hi {a} and {b}", Some(vec!["a", "b"]), Some(vec![Role::User]));
    let first = c.get_reply(&["x", "y"], caller(false, false));
    let second = c.get_reply(&["x", "y"], caller(false, false));
    assert_eq!(first, Some("hi x and y".to_string()));
    assert_eq!(first, second);
}

#[test]
fn unpaired_names_stay_literal() {
    let c = command("!so", "{a} meets {b} at {c}", Some(vec!["a", "b", "c"]), None);
    assert_eq!(c.get_reply(&["ann"], caller(false, false)), Some("ann meets {b} at {c}".to_string()));
    assert_eq!(c.get_reply(&[], caller(false, false)), Some("{a} meets {b} at {c}".to_string()));
}

#[test]
fn extra_arguments_are_dropped() {
    let c = command("!hi", "hello {name}", Some(vec!["name"]), None);
    assert_eq!(c.get_reply(&["bob", "alice"], caller(false, false)), Some("hello bob".to_string()));
}

#[test]
fn values_are_not_expanded_again() {
    let c = command("!p", "{a}-{b}", Some(vec!["a", "b"]), None);
    assert_eq!(c.get_reply(&["{b}", "x"], caller(false, false)), Some("{b}-x".to_string()));
    let d = command("!p", "{a}{a}", Some(vec!["a"]), None);
    assert_eq!(d.get_reply(&["{a}"], caller(false, false)), Some("{a}{a}".to_string()));
}

#[test]
fn respond_end_to_end() {
    let registry = CommandRegistry::from_config(CommandConfig {
        commands: vec![
            command("!so", "go follow {user}!", Some(vec!["user"]), Some(vec![Role::Mod, Role::Broadcaster])),
            command("!hi", "hello", None, None),
        ],
    });
    assert_eq!(respond(&registry, "!so  streamer extra", caller(true, false)), Some("go follow streamer!".to_string()));
    assert_eq!(respond(&registry, "!so streamer", caller(false, false)), None);
    assert_eq!(respond(&registry, "  !hi there", caller(false, false)), Some("hello".to_string()));
    assert_eq!(respond(&registry, "hi !hi", caller(false, false)), None);
    assert_eq!(respond(&registry, "", caller(true, true)), None);
    assert_eq!(respond(&registry, "   ", caller(true, true)), None);
}
