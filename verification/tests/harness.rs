use panedrive::{DumpState, Harness, InProcessBackend, InProcessUi, Json, Key, PaneBackend, RunResult};

fn obj(entries: Vec<(&str, Json)>) -> Json {
    Json::object(entries.into_iter().map(|(k, v)| (k.to_string(), v)).collect())
}

/// A counter that also remembers the last direction and accumulates typed
/// text.
struct Counter {
    count: i64,
    last: String,
    buf: String,
}

impl Counter {
    fn new() -> Self {
        Self {
            count: 0,
            last: "none".into(),
            buf: String::new(),
        }
    }
}

impl DumpState for Counter {
    fn dump_state(&self) -> Json {
        obj(vec![
            ("count", Json::integer(self.count)),
            ("last", Json::string(&self.last)),
            ("buf", Json::string(&self.buf)),
        ])
    }
}

impl InProcessUi for Counter {
    fn apply_key(&mut self, key: &Key) {
        match key {
            Key::Up => {
                self.count += 1;
                self.last = "up".into();
            }
            Key::Down => {
                self.count -= 1;
                self.last = "down".into();
            }
            Key::Char(c) => self.buf.push(*c),
            _ => {}
        }
    }
}

#[test]
fn press_applies_keys_and_the_seam_moves() {
    let mut ui = Harness::new(Counter::new());
    ui.press("Up Up Up Down").unwrap();
    assert_eq!(ui.state().get("count"), Some(&Json::integer(2)));
    assert_eq!(ui.state().get("last"), Some(&Json::string("down")));
}

#[test]
fn press_chains() {
    let mut ui = Harness::new(Counter::new());
    ui.press("Up").unwrap().press("Up").unwrap();
    ui.assert_holds("count=2").unwrap();
}

#[test]
fn type_text_feeds_characters_through_apply_key() {
    let mut ui = Harness::new(Counter::new());
    ui.type_text("hi");
    assert_eq!(ui.state().get("buf"), Some(&Json::string("hi")));
}

#[test]
fn assert_holds_and_explains_a_miss() {
    let mut ui = Harness::new(Counter::new());
    ui.press("Up").unwrap();
    ui.assert_holds("count=1").unwrap();

    let err = ui.assert_holds("count=5").unwrap_err();
    assert!(err.contains("count=5"), "message names the condition: {err}");
    assert!(err.contains("was 1"), "message shows the actual value: {err}");
}

#[test]
fn assert_rejects_an_unparseable_condition() {
    let ui = Harness::new(Counter::new());
    assert!(ui.assert_holds("this is not a condition spec").is_err());
}

#[test]
fn run_drives_a_whole_script_and_passes() {
    let mut ui = Harness::new(Counter::new());
    let outcome = ui
        .run("press Up\npress Up\nassert count=2\nassert last=up\ntype ab\nassert buf=ab")
        .unwrap();
    assert_eq!(outcome, RunResult::Passed);
}

#[test]
fn run_reports_a_failing_assertion() {
    let mut ui = Harness::new(Counter::new());
    let outcome = ui.run("press Up\nassert count=99").unwrap();
    match outcome {
        RunResult::Failed(f) => {
            assert_eq!(f.step, 2);
            assert_eq!(f.kind, "assert");
            assert_eq!(f.cond, "count=99");
        }
        RunResult::Passed => panic!("the mismatched assert should fail the run"),
    }
}

#[test]
fn run_handles_wait_until_immediately_in_process() {
    let mut ui = Harness::new(Counter::new());
    let outcome = ui
        .run("press Up\nwait-until count=1 --timeout-ms 50 --interval-ms 5")
        .unwrap();
    assert_eq!(outcome, RunResult::Passed);
}

#[test]
fn run_surfaces_a_script_parse_error() {
    let mut ui = Harness::new(Counter::new());
    assert!(ui.run("frobnicate nope").is_err());
}

#[test]
fn into_model_returns_the_final_model() {
    let mut ui = Harness::new(Counter::new());
    ui.press("Up Up").unwrap();
    let model = ui.into_model();
    assert_eq!(model.count, 2);
}

#[test]
fn apply_text_default_matches_per_char_keys() {
    let mut typed = Harness::new(Counter::new());
    typed.type_text("abc");
    let mut pressed = Harness::new(Counter::new());
    pressed.press("a b c").unwrap();
    assert_eq!(typed.state(), pressed.state());
}

#[test]
fn model_borrows_fields_the_seam_also_exposes() {
    let mut ui = Harness::new(Counter::new());
    ui.press("Up Up Up").unwrap();
    assert_eq!(ui.model().count, 3);
    assert_eq!(ui.model().last, "up");
}

#[test]
fn run_executes_a_capture_step_in_process() {
    let mut ui = Harness::new(Counter::new());
    let outcome = ui.run("press Up\ncapture\nassert count=1").unwrap();
    assert_eq!(outcome, RunResult::Passed);
}

#[test]
fn in_process_backend_applies_keys_and_captures_nothing() {
    let mut backend = InProcessBackend::new(Counter::new());
    backend.send_keys(&[Key::Up, Key::Up]).unwrap();
    assert_eq!(backend.model().count, 2);
    assert_eq!(backend.capture().unwrap(), "");
}

/// A model whose `apply_text` override is distinguishable from per-key typing.
struct PasteAware {
    keyed: String,
    pasted: String,
}

impl DumpState for PasteAware {
    fn dump_state(&self) -> Json {
        obj(vec![
            ("keyed", Json::string(&self.keyed)),
            ("pasted", Json::string(&self.pasted)),
        ])
    }
}

impl InProcessUi for PasteAware {
    fn apply_key(&mut self, key: &Key) {
        if let Key::Char(c) = key {
            self.keyed.push(*c);
        }
    }
    fn apply_text(&mut self, text: &str) {
        self.pasted.push_str(text);
    }
}

#[test]
fn paste_routes_through_apply_text_while_plain_type_goes_per_key() {
    let mut ui = Harness::new(PasteAware {
        keyed: String::new(),
        pasted: String::new(),
    });
    ui.run("type ab\ntype --paste cd").unwrap();
    assert_eq!(ui.state().get("keyed"), Some(&Json::string("ab")));
    assert_eq!(ui.state().get("pasted"), Some(&Json::string("cd")));

    let mut direct = Harness::new(PasteAware {
        keyed: String::new(),
        pasted: String::new(),
    });
    direct.type_text("ef");
    assert_eq!(direct.state().get("pasted"), Some(&Json::string("ef")));
    assert_eq!(direct.state().get("keyed"), Some(&Json::string("")));
}

#[test]
fn an_unmet_wait_times_out_on_the_virtual_clock() {
    let mut ui = Harness::new(Counter::new());
    let outcome = ui
        .run("wait-until count=1 --timeout-ms 100000 --interval-ms 0\ncapture")
        .unwrap();
    match outcome {
        RunResult::Failed(f) => {
            assert_eq!(f.step, 1);
            assert_eq!(f.kind, "wait-until");
        }
        RunResult::Passed => panic!("the wait never holds"),
    }
}

#[test]
fn a_secret_comes_from_the_given_environment() {
    let mut ui = Harness::new(Counter::new());
    let env = vec![("PIN".to_string(), "42".to_string())];
    let outcome = ui
        .run_with_env("type --from-env PIN\nassert buf=42", &env)
        .unwrap();
    assert_eq!(outcome, RunResult::Passed);
    let mut bare = Harness::new(Counter::new());
    let err = bare.run("type --from-env PIN").unwrap_err();
    assert_eq!(err, "step 1: environment variable PIN is not set");
}

/// A two-field menu: a selection that wraps and a submitted flag.
struct Menu {
    selected: usize,
    len: usize,
    submitted: bool,
}

impl Menu {
    fn new(len: usize) -> Self {
        Self {
            selected: 0,
            len,
            submitted: false,
        }
    }
}

impl DumpState for Menu {
    fn dump_state(&self) -> Json {
        obj(vec![
            ("selected", Json::integer(self.selected as i64)),
            ("len", Json::integer(self.len as i64)),
            ("submitted", Json::boolean(self.submitted)),
        ])
    }
}

impl InProcessUi for Menu {
    fn apply_key(&mut self, key: &Key) {
        match key {
            Key::Down => self.selected = (self.selected + 1) % self.len,
            Key::Up => self.selected = (self.selected + self.len - 1) % self.len,
            Key::Enter => self.submitted = true,
            _ => {}
        }
    }
}

#[test]
fn drives_a_menu_through_the_public_harness_api() {
    let mut ui = Harness::new(Menu::new(3));
    ui.press("Down").unwrap().press("Down").unwrap();
    ui.assert_holds("selected=2").unwrap();
    let outcome = ui
        .run("press Down\nassert selected=0\npress Enter\nassert submitted=true")
        .unwrap();
    assert_eq!(outcome, RunResult::Passed);
    assert_eq!(
        ui.state(),
        obj(vec![
            ("selected", Json::integer(0)),
            ("len", Json::integer(3)),
            ("submitted", Json::boolean(true)),
        ])
    );
    let model = ui.into_model();
    assert!(model.submitted);
}

#[test]
fn a_failing_script_reports_the_offending_step() {
    let mut ui = Harness::new(Menu::new(2));
    let outcome = ui.run("press Down\nassert selected=99").unwrap();
    match outcome {
        RunResult::Failed(f) => {
            assert_eq!(f.step, 2);
            assert_eq!(f.cond, "selected=99");
        }
        RunResult::Passed => panic!("a wrong assertion must fail the run"),
    }
}

struct Fixture {
    focus: &'static str,
    open: bool,
}

impl DumpState for Fixture {
    fn dump_state(&self) -> Json {
        obj(vec![("focus", Json::string(self.focus)), ("open", Json::boolean(self.open))])
    }
}

#[test]
fn dump_state_returns_the_json() {
    let f = Fixture {
        focus: "bag",
        open: true,
    };
    assert_eq!(
        f.dump_state(),
        obj(vec![("focus", Json::string("bag")), ("open", Json::boolean(true))])
    );
}
