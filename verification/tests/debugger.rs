use lib::debugger::{
    debug_action, disassembly_error_line, history_error_line, prompt_step, reader_error_line, register_dump,
    register_label, stack_labels, DebugAction, DebugNotice, DebugValue, FrameRef, LineRead, PromptStep, StackSlot,
};

fn kw(s: &str) -> DebugValue {
    DebugValue::Keyword(s.to_string())
}

fn names(v: &[&str]) -> Option<Vec<String>> {
    Some(v.iter().map(|s| s.to_string()).collect())
}

fn labels(slots: &[StackSlot], err: &Option<Option<Vec<String>>>) -> Vec<(String, Option<usize>)> {
    stack_labels(slots, err).into_iter().map(|l| (l.name, l.handle)).collect()
}

#[test]
fn debug_plain_commands() {
    assert_eq!(debug_action(&[], true, 3), DebugAction::Nothing);
    assert_eq!(debug_action(&[DebugValue::Int(1)], true, 3), DebugAction::Nothing);
    assert_eq!(debug_action(&[kw("abort")], false, 0), DebugAction::Abort);
    assert_eq!(debug_action(&[kw("globals")], false, 0), DebugAction::DumpGlobals);
    assert_eq!(debug_action(&[kw("regs-raw")], false, 0), DebugAction::DumpStack);
    assert_eq!(debug_action(&[kw("stack")], false, 0), DebugAction::ShowCallStack);
    assert_eq!(debug_action(&[kw("continue")], true, 3), DebugAction::Nothing);
    assert_eq!(debug_action(&[DebugValue::Other, kw("abort")], true, 3), DebugAction::Nothing);
}

#[test]
fn debug_dasm_command() {
    assert_eq!(debug_action(&[kw("dasm")], true, 3), DebugAction::Disassemble(FrameRef::ErrFrame));
    assert_eq!(
        debug_action(&[kw("dasm")], false, 3),
        DebugAction::Notice(DebugNotice::NothingToDisassemble)
    );
    assert_eq!(
        debug_action(&[kw("dasm"), DebugValue::Int(-2)], true, 3),
        DebugAction::Disassemble(FrameRef::CallStack(2))
    );
    assert_eq!(
        debug_action(&[kw("dasm"), DebugValue::Int(3)], false, 3),
        DebugAction::Disassemble(FrameRef::CallStack(3))
    );
    assert_eq!(debug_action(&[kw("dasm"), DebugValue::Int(4)], true, 3), DebugAction::Nothing);
    assert_eq!(debug_action(&[kw("dasm"), DebugValue::Int(0)], true, 3), DebugAction::Nothing);
    assert_eq!(debug_action(&[kw("dasm"), DebugValue::Int(i64::MIN)], true, 3), DebugAction::Nothing);
    assert_eq!(
        debug_action(&[kw("dasm"), DebugValue::Other], true, 3),
        DebugAction::Notice(DebugNotice::ParamNotInt)
    );
}

#[test]
fn debug_regs_command() {
    assert_eq!(debug_action(&[kw("regs")], true, 0), DebugAction::DumpRegs(FrameRef::ErrFrame));
    assert_eq!(debug_action(&[kw("regs")], false, 2), DebugAction::Notice(DebugNotice::AtTopLevel));
    assert_eq!(
        debug_action(&[kw("regs"), DebugValue::Int(1)], false, 2),
        DebugAction::DumpRegs(FrameRef::CallStack(1))
    );
    assert_eq!(
        debug_action(&[kw("regs"), kw("x")], false, 2),
        DebugAction::Notice(DebugNotice::ParamNotInt)
    );
}

#[test]
fn debug_notice_texts() {
    assert_eq!(DebugNotice::ParamNotInt.text(), "Param not an int.");
    assert_eq!(DebugNotice::NothingToDisassemble.text(), "Nothing to disassemble.");
    assert_eq!(DebugNotice::AtTopLevel.text(), "At top level.");
}

#[test]
fn register_labels() {
    let n = names(&["a", "b"]);
    assert_eq!(register_label(0, &n), "params/result");
    assert_eq!(register_label(1, &n), "a");
    assert_eq!(register_label(2, &n), "b");
    assert_eq!(register_label(3, &n), "[SCRATCH]");
    assert_eq!(register_label(0, &None), "params/result");
    assert_eq!(register_label(1, &None), "[SCRATCH]");
}

#[test]
fn stack_labels_follow_frames() {
    let slots = [
        StackSlot::Other,
        StackSlot::CallFrame(names(&["x", "y"])),
        StackSlot::Value(7),
        StackSlot::Other,
        StackSlot::Other,
        StackSlot::CallFrame(None),
        StackSlot::Value(3),
    ];
    let expected = vec![
        ("[SCRATCH]".to_string(), None),
        ("RESULT".to_string(), None),
        ("x".to_string(), Some(7)),
        ("y".to_string(), None),
        ("[SCRATCH]".to_string(), None),
        ("RESULT".to_string(), None),
        ("[SCRATCH]".to_string(), Some(3)),
    ];
    assert_eq!(labels(&slots, &Some(names(&["e"]))), expected);
}

#[test]
fn stack_labels_take_frame_codes_in_order() {
    // The bottom slot takes the code of the first frame above it, and the
    // error frame's code comes last.
    let slots = [
        StackSlot::CallFrame(names(&["a"])),
        StackSlot::Value(1),
        StackSlot::CallFrame(names(&["b"])),
        StackSlot::Value(2),
    ];
    let expected = vec![
        ("RESULT".to_string(), None),
        ("b".to_string(), Some(1)),
        ("RESULT".to_string(), None),
        ("e".to_string(), Some(2)),
    ];
    assert_eq!(labels(&slots, &Some(names(&["e"]))), expected);
    let expected = vec![
        ("RESULT".to_string(), None),
        ("b".to_string(), Some(1)),
        ("RESULT".to_string(), None),
        ("[SCRATCH]".to_string(), Some(2)),
    ];
    assert_eq!(labels(&slots, &None), expected);
    assert!(labels(&[], &None).is_empty());
}

#[test]
fn register_dump_shows_the_frame_registers() {
    let slots = [
        StackSlot::Other,
        StackSlot::CallFrame(None),
        StackSlot::Value(4),
        StackSlot::Other,
        StackSlot::Value(9),
        StackSlot::Other,
        StackSlot::Value(1),
    ];
    let d = register_dump(&slots, 2, 1, 2, &names(&["p"]));
    assert_eq!((d.start, d.end), (2, 6));
    let lines: Vec<(String, Option<usize>)> = d.lines.into_iter().map(|l| (l.name, l.handle)).collect();
    assert_eq!(
        lines,
        vec![
            ("params/result".to_string(), Some(4)),
            ("p".to_string(), None),
            ("[SCRATCH]".to_string(), Some(9)),
            ("[SCRATCH]".to_string(), None),
        ]
    );
    let d = register_dump(&slots, 6, 0, 0, &None);
    assert_eq!((d.start, d.end, d.lines.len()), (6, 7, 1));
    assert_eq!(d.lines[0].name, "params/result");
    assert_eq!(d.lines[0].handle, Some(1));
}

#[test]
fn prompt_steps_after_a_read() {
    assert_eq!(prompt_step(LineRead::Line(":regs 1".to_string())), PromptStep::Evaluate(":regs 1".to_string()));
    assert_eq!(prompt_step(LineRead::Line(String::new())), PromptStep::Skip);
    assert_eq!(
        prompt_step(LineRead::EndOfInput),
        PromptStep::Print("Enter :abort to exit debug mode and abort the error.".to_string())
    );
    assert_eq!(prompt_step(LineRead::Interrupted), PromptStep::Skip);
    assert_eq!(
        prompt_step(LineRead::Failed("bad tty".to_string())),
        PromptStep::PrintError("Error on input: bad tty".to_string())
    );
}

#[test]
fn debugger_error_lines() {
    assert_eq!(history_error_line("no file"), "Error loading history: no file");
    assert_eq!(reader_error_line("unbalanced"), "Reader error: unbalanced");
    assert_eq!(disassembly_error_line("bad op"), "Error in disassembly: bad op");
}
