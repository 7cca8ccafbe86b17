use selenite_lamp::{LampController, LampError, LampMode};

fn mode(name: &str, command: &str) -> LampMode {
    LampMode { name: name.to_string(), command: command.to_string() }
}

fn three_modes() -> LampController {
    LampController::new(
        "/tmp/lamp.json".to_string(),
        &[mode("a", "{\"a\":1}"), mode("b", "{\"b\":2}"), mode("c", "{\"c\":3}")],
    )
}

/// A sink whose writes are counted.
struct Sink {
    contents: Option<String>,
    writes: usize,
}

impl Sink {
    fn persist(&mut self, lamp: &LampController) -> Result<(), LampError> {
        if let Some(w) = lamp.update_lamp(self.contents.as_deref())? {
            self.contents = Some(w);
            self.writes += 1;
        }
        Ok(())
    }
}

#[test]
fn new_controller_has_no_active_mode() {
    let lamp = three_modes();
    assert_eq!(lamp.file(), "/tmp/lamp.json");
    assert_eq!(lamp.top_command(), Err(LampError::NoActiveMode));
    assert_eq!(lamp.update_lamp(None), Err(LampError::NoActiveMode));
}

#[test]
fn unknown_mode_is_refused() {
    let mut lamp = three_modes();
    assert_eq!(lamp.enable("zzz"), Err(LampError::UnknownMode));
    assert_eq!(lamp.disable("zzz"), Err(LampError::UnknownMode));
    assert_eq!(lamp.top_command(), Err(LampError::NoActiveMode));
}

#[test]
fn priorities_follow_configuration_order() {
    let mut lamp = three_modes();
    lamp.enable("a").unwrap();
    lamp.enable("b").unwrap();
    lamp.enable("c").unwrap();
    assert_eq!(lamp.top_command().unwrap(), "{\"c\":3}");
    lamp.disable("c").unwrap();
    assert_eq!(lamp.top_command().unwrap(), "{\"b\":2}");
    lamp.disable("b").unwrap();
    assert_eq!(lamp.top_command().unwrap(), "{\"a\":1}");
    lamp.enable("c").unwrap();
    assert_eq!(lamp.top_command().unwrap(), "{\"c\":3}");
}

#[test]
fn enabling_top_mode_wins_whatever_the_order() {
    let mut lamp = three_modes();
    lamp.enable("c").unwrap();
    lamp.enable("b").unwrap();
    lamp.enable("a").unwrap();
    assert_eq!(lamp.top_command().unwrap(), "{\"c\":3}");
}

#[test]
fn sink_follows_a_sequence_of_switches() {
    let mut lamp = three_modes();
    let mut sink = Sink { contents: None, writes: 0 };
    lamp.enable("a").unwrap();
    sink.persist(&lamp).unwrap();
    assert_eq!(sink.contents.as_deref(), Some("{\"a\":1}"));
    lamp.enable("c").unwrap();
    sink.persist(&lamp).unwrap();
    lamp.enable("b").unwrap();
    sink.persist(&lamp).unwrap();
    assert_eq!(sink.contents.as_deref(), Some("{\"c\":3}"));
    lamp.disable("c").unwrap();
    sink.persist(&lamp).unwrap();
    assert_eq!(sink.contents.as_deref(), Some("{\"b\":2}"));
    lamp.disable("a").unwrap();
    sink.persist(&lamp).unwrap();
    assert_eq!(sink.contents.as_deref(), Some("{\"b\":2}"));
    lamp.disable("b").unwrap();
    assert_eq!(sink.persist(&lamp), Err(LampError::NoActiveMode));
    assert_eq!(sink.contents.as_deref(), Some("{\"b\":2}"));
}

#[test]
fn enabling_twice_writes_once() {
    let mut lamp = three_modes();
    let mut sink = Sink { contents: None, writes: 0 };
    lamp.enable("b").unwrap();
    sink.persist(&lamp).unwrap();
    lamp.enable("b").unwrap();
    sink.persist(&lamp).unwrap();
    assert_eq!(sink.writes, 1);
    assert_eq!(sink.contents.as_deref(), Some("{\"b\":2}"));
    assert_eq!(lamp.top_command().unwrap(), "{\"b\":2}");
}

#[test]
fn disabling_twice_is_disabling_once() {
    let mut lamp = three_modes();
    let mut sink = Sink { contents: None, writes: 0 };
    lamp.enable("a").unwrap();
    lamp.enable("c").unwrap();
    sink.persist(&lamp).unwrap();
    lamp.disable("c").unwrap();
    sink.persist(&lamp).unwrap();
    lamp.disable("c").unwrap();
    sink.persist(&lamp).unwrap();
    assert_eq!(sink.writes, 2);
    assert_eq!(sink.contents.as_deref(), Some("{\"a\":1}"));
}

#[test]
fn no_write_when_sink_already_current() {
    let mut lamp = three_modes();
    lamp.enable("b").unwrap();
    assert_eq!(lamp.update_lamp(Some("{\"b\":2}")), Ok(None));
    assert_eq!(lamp.update_lamp(Some("{\"a\":1}")), Ok(Some("{\"b\":2}".to_string())));
    assert_eq!(lamp.update_lamp(None), Ok(Some("{\"b\":2}".to_string())));
}

#[test]
fn duplicate_mode_name_takes_the_later_rank() {
    let mut lamp = LampController::new(
        "out".to_string(),
        &[mode("x", "first"), mode("y", "second"), mode("x", "third")],
    );
    lamp.enable("y").unwrap();
    lamp.enable("x").unwrap();
    assert_eq!(lamp.top_command().unwrap(), "third");
}
