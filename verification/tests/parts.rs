use aopt::opt::Action;
use file_finder::config::{
    configuration_file_name, configuration_name, try_to_load_configuration2, Candidate,
};
use file_finder::json::{first_options, JsonConfig, JsonOptCollection};
use file_finder::sink::{Received, Refused, ResultSink};
use file_finder::tracker::CompletionTracker;

#[test]
fn tracker_completes_with_the_last_unit() {
    let mut tracker = CompletionTracker::new();
    assert_eq!(tracker.pending(), 0);
    assert!(!tracker.is_closed());
    assert!(tracker.enter());
    assert!(tracker.enter());
    assert!(tracker.enter());
    assert_eq!(tracker.pending(), 3);
    assert!(!tracker.leave());
    assert!(tracker.enter());
    assert!(!tracker.leave());
    assert!(!tracker.leave());
    assert_eq!(tracker.pending(), 1);
    assert!(!tracker.is_closed());
    assert!(tracker.leave());
    assert!(tracker.is_closed());
    assert_eq!(tracker.pending(), 0);
}

#[test]
fn tracker_completes_only_once() {
    let mut tracker = CompletionTracker::new();
    assert!(tracker.enter());
    assert!(tracker.leave());
    assert!(!tracker.leave());
    assert!(!tracker.enter());
    assert_eq!(tracker.pending(), 0);
    assert!(!tracker.leave());
    assert!(tracker.is_closed());
}

#[test]
fn idle_tracker_closes_on_request() {
    let mut tracker = CompletionTracker::new();
    assert!(!tracker.leave());
    assert!(!tracker.is_closed());
    assert!(tracker.enter());
    assert!(!tracker.close_if_idle());
    assert!(tracker.leave());
    let mut idle = CompletionTracker::new();
    assert!(idle.close_if_idle());
    assert!(idle.is_closed());
    assert!(!idle.enter());
}

#[test]
fn sink_hands_paths_on_in_order() {
    let mut sink = ResultSink::new(3);
    assert_eq!(sink.capacity(), 3);
    assert_eq!(sink.len(), 0);
    assert!(matches!(sink.pop(), Received::Empty));
    assert!(sink.push("a".to_string()).is_ok());
    assert!(sink.push("b".to_string()).is_ok());
    assert!(sink.push("c".to_string()).is_ok());
    assert_eq!(sink.len(), 3);
    match sink.pop() {
        Received::Path(path) => assert_eq!(path, "a"),
        _ => panic!("a path waits"),
    }
    match sink.pop() {
        Received::Path(path) => assert_eq!(path, "b"),
        _ => panic!("a path waits"),
    }
    assert!(sink.push("d".to_string()).is_ok());
    match sink.pop() {
        Received::Path(path) => assert_eq!(path, "c"),
        _ => panic!("a path waits"),
    }
    match sink.pop() {
        Received::Path(path) => assert_eq!(path, "d"),
        _ => panic!("a path waits"),
    }
    assert!(matches!(sink.pop(), Received::Empty));
}

#[test]
fn full_sink_hands_the_path_back() {
    let mut sink = ResultSink::new(1);
    assert!(sink.push("a".to_string()).is_ok());
    match sink.push("b".to_string()) {
        Err(Refused::Full(path)) => assert_eq!(path, "b"),
        _ => panic!("the sink is full"),
    }
    assert_eq!(sink.len(), 1);
    assert!(matches!(sink.pop(), Received::Path(_)));
    assert!(sink.push("b".to_string()).is_ok());
}

#[test]
fn closed_sink_takes_nothing_and_ends_when_drained() {
    let mut sink = ResultSink::new(2);
    assert!(sink.push("a".to_string()).is_ok());
    assert!(!sink.is_closed());
    sink.close();
    assert!(sink.is_closed());
    match sink.push("b".to_string()) {
        Err(Refused::Closed(path)) => assert_eq!(path, "b"),
        _ => panic!("the sink is closed"),
    }
    match sink.pop() {
        Received::Path(path) => assert_eq!(path, "a"),
        _ => panic!("a path waits"),
    }
    assert!(matches!(sink.pop(), Received::End));
    sink.close();
    assert!(sink.is_closed());
    assert!(matches!(sink.pop(), Received::End));
}

fn config(id: &str, option: &str) -> JsonConfig {
    JsonConfig {
        id: id.to_string(),
        option: option.to_string(),
        hint: None,
        help: None,
        action: None,
        alias: None,
        value: None,
    }
}

fn strings(values: &[&str]) -> Option<Vec<String>> {
    Some(values.iter().map(|v| v.to_string()).collect())
}

#[test]
fn taking_leaves_nothing_behind() {
    let mut cfg = config("c", "-c=s");
    cfg.hint = Some("-c".to_string());
    cfg.help = Some("C files".to_string());
    cfg.action = Some(Action::App);
    cfg.alias = strings(&["--c"]);
    cfg.value = strings(&["c", "h"]);
    assert_eq!(cfg.take_option(), "-c=s");
    assert_eq!(cfg.option, "");
    assert_eq!(cfg.take_hint(), Some("-c".to_string()));
    assert_eq!(cfg.hint, None);
    assert_eq!(cfg.take_help(), Some("C files".to_string()));
    assert_eq!(cfg.help, None);
    assert_eq!(cfg.take_action(), Some(Action::App));
    assert_eq!(cfg.action, None);
    assert_eq!(cfg.take_alias(), strings(&["--c"]));
    assert_eq!(cfg.alias, None);
    assert_eq!(cfg.take_value(), strings(&["c", "h"]));
    assert_eq!(cfg.value, None);
    assert_eq!(cfg.take_value(), None);
    assert_eq!(cfg.id, "c");
}

#[test]
fn setting_changes_one_part() {
    let mut cfg = config("c", "-c=s");
    cfg.set_id("cpp".to_string())
        .set_option("-cpp=s".to_string())
        .set_hint(Some("-cpp".to_string()))
        .set_help(Some("C++ files".to_string()))
        .set_action(Some(Action::Set))
        .set_alias(strings(&["--c++"]))
        .set_value(strings(&["cpp", "hpp"]));
    assert_eq!(cfg.id, "cpp");
    assert_eq!(cfg.option, "-cpp=s");
    assert_eq!(cfg.hint, Some("-cpp".to_string()));
    assert_eq!(cfg.help, Some("C++ files".to_string()));
    assert_eq!(cfg.action, Some(Action::Set));
    assert_eq!(cfg.alias, strings(&["--c++"]));
    assert_eq!(cfg.value, strings(&["cpp", "hpp"]));
    cfg.set_hint(None);
    assert_eq!(cfg.hint, None);
    assert_eq!(cfg.help, Some("C++ files".to_string()));
}

#[test]
fn merging_values_appends_the_other_ones() {
    let mut mine = config("c", "-c=s");
    let mut theirs = config("c", "-c=s");
    mine.value = strings(&["c"]);
    theirs.value = strings(&["h", "c"]);
    mine.merge_value(&mut theirs);
    assert_eq!(mine.value, strings(&["c", "h", "c"]));
    assert_eq!(theirs.value, strings(&[]));

    let mut mine = config("c", "-c=s");
    let mut theirs = config("c", "-c=s");
    theirs.value = strings(&["h"]);
    mine.merge_value(&mut theirs);
    assert_eq!(mine.value, strings(&["h"]));
    assert_eq!(theirs.value, None);

    let mut mine = config("c", "-c=s");
    let mut theirs = config("c", "-c=s");
    mine.value = strings(&["c"]);
    mine.merge_value(&mut theirs);
    assert_eq!(mine.value, strings(&["c"]));
    assert_eq!(theirs.value, None);

    let mut mine = config("c", "-c=s");
    let mut theirs = config("c", "-c=s");
    mine.merge_value(&mut theirs);
    assert_eq!(mine.value, None);
    assert_eq!(theirs.value, None);
}

#[test]
fn new_definition_joins_the_collection() {
    let mut collection = JsonOptCollection::default();
    assert!(collection.opts.is_empty());
    collection.add_json_config(config("c", "-c=s")).add_json_config(config("rust", "-rs=s"));
    assert_eq!(collection.opts.len(), 2);
    assert_eq!(collection.opts[0].id, "c");
    assert_eq!(collection.opts[1].id, "rust");
}

#[test]
fn second_definition_fills_what_the_first_lacks() {
    let mut collection = JsonOptCollection::default();
    let mut first = config("c", "");
    first.hint = Some("-c".to_string());
    first.value = strings(&["c"]);
    collection.add_json_config(first);
    collection.add_json_config(config("rust", "-rs=s"));
    let mut second = config("c", "-c=s");
    second.hint = Some("--other".to_string());
    second.help = Some("C files".to_string());
    second.action = Some(Action::App);
    second.alias = strings(&["--c"]);
    second.value = strings(&["h"]);
    collection.add_json_config(second);
    assert_eq!(collection.opts.len(), 2);
    let merged = &collection.opts[0];
    assert_eq!(merged.id, "c");
    assert_eq!(merged.option, "-c=s");
    assert_eq!(merged.hint, Some("-c".to_string()));
    assert_eq!(merged.help, Some("C files".to_string()));
    assert_eq!(merged.action, Some(Action::App));
    assert_eq!(merged.alias, strings(&["--c"]));
    assert_eq!(merged.value, strings(&["c", "h"]));
    assert_eq!(collection.opts[1].id, "rust");
    assert_eq!(collection.opts[1].option, "-rs=s");
}

#[test]
fn first_definition_keeps_what_it_has() {
    let mut collection = JsonOptCollection::default();
    let mut first = config("c", "-c=s");
    first.help = Some("C files".to_string());
    first.action = Some(Action::Set);
    first.alias = strings(&["--c"]);
    collection.add_json_config(first);
    let mut second = config("c", "-other=s");
    second.help = Some("other".to_string());
    second.action = Some(Action::App);
    second.alias = strings(&["--other"]);
    collection.add_json_config(second);
    assert_eq!(collection.opts.len(), 1);
    let merged = &collection.opts[0];
    assert_eq!(merged.option, "-c=s");
    assert_eq!(merged.help, Some("C files".to_string()));
    assert_eq!(merged.action, Some(Action::Set));
    assert_eq!(merged.alias, strings(&["--c"]));
    assert_eq!(merged.hint, None);
    assert_eq!(merged.value, None);
}

fn candidate(directory: &str, is_file: bool) -> Candidate {
    Candidate {
        directory: directory.to_string(),
        path: format!("{}/rust.json", directory),
        is_file,
    }
}

#[test]
fn configuration_file_is_named_after_the_configuration() {
    assert_eq!(configuration_file_name("rust"), "rust.json");
    assert_eq!(configuration_file_name(""), ".json");
}

#[test]
fn configuration_comes_from_the_first_directory_that_has_it() {
    let candidates = vec![candidate("/exe", false), candidate("/cwd", true), candidate("/env", true)];
    assert_eq!(try_to_load_configuration2(&candidates, "rust", false), Ok("/cwd/rust.json".to_string()));
    assert_eq!(try_to_load_configuration2(&candidates, "rust", true), Ok("/cwd/rust.json".to_string()));
}

#[test]
fn configuration_name_may_be_a_path() {
    let candidates = vec![candidate("/exe", false), candidate("/cwd", false)];
    assert_eq!(
        try_to_load_configuration2(&candidates, "my/own.json", true),
        Ok("my/own.json".to_string())
    );
    assert_eq!(try_to_load_configuration2(&Vec::new(), "own.json", true), Ok("own.json".to_string()));
}

#[test]
fn missing_configuration_names_the_directories() {
    let candidates = vec![candidate("/exe", false), candidate("/cwd", false)];
    assert_eq!(
        try_to_load_configuration2(&candidates, "rust", false),
        Err("Can not find configuration file in '/exe' '/cwd' ".to_string())
    );
    assert_eq!(
        try_to_load_configuration2(&Vec::new(), "rust", false),
        Err("Can not find configuration file in ".to_string())
    );
}

#[test]
fn configuration_is_named_after_its_file() {
    assert_eq!(configuration_name("rust.json"), Some("rust".to_string()));
    assert_eq!(configuration_name("my.rust.json"), Some("my.rust".to_string()));
    assert_eq!(configuration_name("rust.toml"), None);
    assert_eq!(configuration_name("rust.JSON"), None);
    assert_eq!(configuration_name("json"), None);
    assert_eq!(configuration_name(".json"), None);
    assert_eq!(configuration_name("rust.json.bak"), None);
    assert_eq!(configuration_name(""), None);
}

#[test]
fn first_definition_names_the_option() {
    let loaded = vec![
        config("c", "-c=s"),
        config("rust", "-rs=s"),
        config("c", "-other=s"),
        config("c", ""),
        config("py", ""),
        config("rust", "-rust=s"),
    ];
    let pairs = first_options(&loaded);
    assert_eq!(
        pairs,
        vec![
            ("c".to_string(), "-c=s".to_string()),
            ("rust".to_string(), "-rs=s".to_string()),
            ("py".to_string(), "".to_string()),
        ]
    );
    assert!(first_options(&Vec::new()).is_empty());
}
