use vstd::prelude::*;

verus! {

/// A value that the reader gave for a line typed at the debugger prompt.
#[derive(Debug)]
pub enum DebugValue {
    Keyword(String),
    Int(i64),
    Other,
}

/// The model of a `DebugValue`.
pub enum DebugVal {
    Keyword(Seq<char>),
    Int(int),
    Other,
}

impl View for DebugValue {
    type V = DebugVal;

    open spec fn view(&self) -> DebugVal {
        match self {
            DebugValue::Keyword(k) => DebugVal::Keyword(k@),
            DebugValue::Int(i) => DebugVal::Int(*i as int),
            DebugValue::Other => DebugVal::Other,
        }
    }
}

/// The models of the values of a line.
pub open spec fn debug_vals(exps: Seq<DebugValue>) -> Seq<DebugVal> {
    exps.map_values(|e: DebugValue| e@)
}

/// A frame to show: the one at a position of the call stack (counted from
/// 1, innermost first), or the frame that raised the error.
#[derive(Clone, Copy, Debug, PartialEq, Eq)]
pub enum FrameRef {
    CallStack(usize),
    ErrFrame,
}

/// A line the debugger prints instead of acting.
#[derive(Clone, Copy, Debug, PartialEq, Eq)]
pub enum DebugNotice {
    ParamNotInt,
    NothingToDisassemble,
    AtTopLevel,
}

/// What the debugger does for one input line.
#[derive(Clone, Copy, Debug, PartialEq, Eq)]
pub enum DebugAction {
    /// `:abort`: leave the debugger.
    Abort,
    /// `:globals`: show the global bindings.
    DumpGlobals,
    /// `:dasm [n]`: disassemble the code of a frame.
    Disassemble(FrameRef),
    /// `:regs [n]`: show the registers of a frame.
    DumpRegs(FrameRef),
    /// `:regs-raw`: show the whole stack.
    DumpStack,
    /// `:stack`: show the error frame and the call stack.
    ShowCallStack,
    /// Print a notice.
    Notice(DebugNotice),
    /// Anything else: read the next line.
    Nothing,
}

/// The magnitude of `n`.
pub open spec fn magnitude(n: int) -> int {
    if n < 0 { -n } else { n }
}

/// The action of `:dasm` (when `dasm`) or `:regs`, given the values of the
/// line, whether there is an error frame and the depth of the call stack.
pub open spec fn frame_action_spec(exps: Seq<DebugVal>, has_err_frame: bool, depth: int, dasm: bool) -> DebugAction {
    if exps.len() > 1 {
        match exps[1] {
            DebugVal::Int(n) => if 1 <= magnitude(n) <= depth {
                let f = FrameRef::CallStack(magnitude(n) as usize);
                if dasm { DebugAction::Disassemble(f) } else { DebugAction::DumpRegs(f) }
            } else {
                DebugAction::Nothing
            },
            _ => DebugAction::Notice(DebugNotice::ParamNotInt),
        }
    } else if has_err_frame {
        if dasm { DebugAction::Disassemble(FrameRef::ErrFrame) } else { DebugAction::DumpRegs(FrameRef::ErrFrame) }
    } else if dasm {
        DebugAction::Notice(DebugNotice::NothingToDisassemble)
    } else {
        DebugAction::Notice(DebugNotice::AtTopLevel)
    }
}

/// The action for a line whose values are `exps`: its first value names the
/// command when it is one of the debugger's keywords.
pub open spec fn debug_action_spec(exps: Seq<DebugVal>, has_err_frame: bool, depth: int) -> DebugAction {
    if exps.len() == 0 {
        DebugAction::Nothing
    } else {
        match exps[0] {
            DebugVal::Keyword(k) => if k == "abort"@ {
                DebugAction::Abort
            } else if k == "globals"@ {
                DebugAction::DumpGlobals
            } else if k == "dasm"@ {
                frame_action_spec(exps, has_err_frame, depth, true)
            } else if k == "regs"@ {
                frame_action_spec(exps, has_err_frame, depth, false)
            } else if k == "regs-raw"@ {
                DebugAction::DumpStack
            } else if k == "stack"@ {
                DebugAction::ShowCallStack
            } else {
                DebugAction::Nothing
            },
            _ => DebugAction::Nothing,
        }
    }
}

/// Whether `k` is the word `w`.
fn is_word(k: &String, w: &str) -> (b: bool)
    ensures
        b == (k@ == w@),
{
    let t = String::from_str(w);
    *k == t
}

/// The magnitude of `n`, which fits in a `u64` for every `i64`.
fn magnitude_of(n: i64) -> (m: u64)
    ensures
        m == magnitude(n as int),
{
    if n >= 0 {
        n as u64
    } else {
        ((-(n + 1)) as u64) + 1
    }
}

/// The action of `:dasm` (when `dasm`) or `:regs`.
fn frame_action(exps: &[DebugValue], has_err_frame: bool, depth: usize, dasm: bool) -> (a: DebugAction)
    ensures
        a == frame_action_spec(debug_vals(exps@), has_err_frame, depth as int, dasm),
{
    let ghost vals = debug_vals(exps@);
    if exps.len() > 1 {
        assert(vals[1] == exps@[1]@);
        match &exps[1] {
            DebugValue::Int(n) => {
                let m = magnitude_of(*n);
                if 1 <= m && m <= depth as u64 {
                    let f = FrameRef::CallStack(m as usize);
                    if dasm { DebugAction::Disassemble(f) } else { DebugAction::DumpRegs(f) }
                } else {
                    DebugAction::Nothing
                }
            },
            _ => DebugAction::Notice(DebugNotice::ParamNotInt),
        }
    } else if has_err_frame {
        if dasm { DebugAction::Disassemble(FrameRef::ErrFrame) } else { DebugAction::DumpRegs(FrameRef::ErrFrame) }
    } else if dasm {
        DebugAction::Notice(DebugNotice::NothingToDisassemble)
    } else {
        DebugAction::Notice(DebugNotice::AtTopLevel)
    }
}

/// The action for a line that the reader turned into `exps`, when the
/// debugger holds an error frame (`has_err_frame`) and a call stack of
/// `depth` frames.  A frame number is taken by its magnitude; one that names
/// no frame of the call stack does nothing.
pub fn debug_action(exps: &[DebugValue], has_err_frame: bool, depth: usize) -> (a: DebugAction)
    ensures
        a == debug_action_spec(debug_vals(exps@), has_err_frame, depth as int),
{
    let ghost vals = debug_vals(exps@);
    if exps.len() == 0 {
        return DebugAction::Nothing;
    }
    assert(vals[0] == exps@[0]@);
    match &exps[0] {
        DebugValue::Keyword(k) => {
            if is_word(k, "abort") {
                DebugAction::Abort
            } else if is_word(k, "globals") {
                DebugAction::DumpGlobals
            } else if is_word(k, "dasm") {
                frame_action(exps, has_err_frame, depth, true)
            } else if is_word(k, "regs") {
                frame_action(exps, has_err_frame, depth, false)
            } else if is_word(k, "regs-raw") {
                DebugAction::DumpStack
            } else if is_word(k, "stack") {
                DebugAction::ShowCallStack
            } else {
                DebugAction::Nothing
            }
        },
        _ => DebugAction::Nothing,
    }
}

/// The text of a notice.
pub open spec fn notice_text_spec(n: DebugNotice) -> Seq<char> {
    match n {
        DebugNotice::ParamNotInt => "Param not an int."@,
        DebugNotice::NothingToDisassemble => "Nothing to disassemble."@,
        DebugNotice::AtTopLevel => "At top level."@,
    }
}

impl DebugNotice {
    /// The line printed for this notice.
    pub fn text(&self) -> (s: &'static str)
        ensures
            s@ == notice_text_spec(*self),
    {
        match self {
            DebugNotice::ParamNotInt => "Param not an int.",
            DebugNotice::NothingToDisassemble => "Nothing to disassemble.",
            DebugNotice::AtTopLevel => "At top level.",
        }
    }
}

/// The models of optional register names.
pub open spec fn opt_names_view(names: Option<Vec<String>>) -> Option<Seq<Seq<char>>> {
    match names {
        Some(v) => Some(v@.map_values(|s: String| s@)),
        None => None,
    }
}

/// The label of register `i` of a frame whose code names its registers
/// `names` (when it does): register 0 holds the parameters and the result,
/// the next ones take the names in order, and the rest are scratch.
pub open spec fn register_label_spec(i: int, names: Option<Seq<Seq<char>>>) -> Seq<char> {
    if i == 0 {
        "params/result"@
    } else {
        match names {
            Some(v) => if i - 1 < v.len() { v[i - 1] } else { "[SCRATCH]"@ },
            None => "[SCRATCH]"@,
        }
    }
}

/// The label of register `i` when the registers are shown.
pub fn register_label(i: usize, names: &Option<Vec<String>>) -> (s: String)
    ensures
        s@ == register_label_spec(i as int, opt_names_view(*names)),
{
    if i == 0 {
        return String::from_str("params/result");
    }
    match names {
        Some(v) => {
            if i - 1 < v.len() {
                assert(opt_names_view(*names)->0[i - 1] == v@[i - 1]@);
                v[i - 1].clone()
            } else {
                String::from_str("[SCRATCH]")
            }
        },
        None => String::from_str("[SCRATCH]"),
    }
}

/// A slot of the stack, as far as its label depends on it.
#[derive(Debug)]
pub enum StackSlot {
    /// A call frame, with the register names of its code when it has them.
    CallFrame(Option<Vec<String>>),
    /// A value held in the heap, by its handle.
    Value(usize),
    /// Any other value.
    Other,
}

/// The model of a `StackSlot`.
pub enum SlotView {
    CallFrame(Option<Seq<Seq<char>>>),
    Value(usize),
    Other,
}

impl View for StackSlot {
    type V = SlotView;

    open spec fn view(&self) -> SlotView {
        match self {
            StackSlot::CallFrame(a) => SlotView::CallFrame(opt_names_view(*a)),
            StackSlot::Value(h) => SlotView::Value(*h),
            StackSlot::Other => SlotView::Other,
        }
    }
}

/// The label of a stack slot: a name, and the handle of a value held in the
/// heap.
#[derive(Debug)]
pub struct StackLabel {
    pub name: String,
    pub handle: Option<usize>,
}

impl View for StackLabel {
    type V = (Seq<char>, Option<usize>);

    open spec fn view(&self) -> (Seq<char>, Option<usize>) {
        (self.name@, self.handle)
    }
}

/// The models of the slots.
pub open spec fn slot_views(slots: Seq<StackSlot>) -> Seq<SlotView> {
    slots.map_values(|x: StackSlot| x@)
}

/// The positions among `slots[1..n]` that hold call frames, in order.
pub open spec fn frame_positions(slots: Seq<SlotView>, n: int) -> Seq<int>
    decreases n,
{
    if n <= 1 {
        Seq::empty()
    } else {
        let p = frame_positions(slots, n - 1);
        if slots[n - 1] is CallFrame { p.push(n - 1) } else { p }
    }
}

/// The register names of the `q`-th frame code: the frames on the stack
/// above the bottom slot in order, then the error frame `err` when there is
/// one.
pub open spec fn chunk_names(slots: Seq<SlotView>, err: Option<Option<Seq<Seq<char>>>>, q: int) -> Option<Seq<Seq<char>>> {
    let p = frame_positions(slots, slots.len() as int);
    if 0 <= q < p.len() {
        match slots[p[q]] {
            SlotView::CallFrame(a) => a,
            _ => None,
        }
    } else if q == p.len() {
        match err {
            Some(a) => a,
            None => None,
        }
    } else {
        None
    }
}

/// The labels of `slots[i..]`, when `q` frame codes are used up and the
/// slots above the last call frame take the names `cur` from position `pos`
/// on.  A call frame is labelled `RESULT` and starts the names of the next
/// frame code; another slot takes the next name, or `[SCRATCH]`.
pub open spec fn stack_labels_from(
    slots: Seq<SlotView>,
    err: Option<Option<Seq<Seq<char>>>>,
    i: int,
    q: int,
    cur: Option<Seq<Seq<char>>>,
    pos: int,
) -> Seq<(Seq<char>, Option<usize>)>
    decreases slots.len() - i,
{
    if i < 0 || i >= slots.len() {
        Seq::empty()
    } else {
        match slots[i] {
            SlotView::CallFrame(_) => seq![("RESULT"@, None::<usize>)] + stack_labels_from(
                slots,
                err,
                i + 1,
                q + 1,
                chunk_names(slots, err, q),
                0,
            ),
            _ => {
                let name = match cur {
                    Some(v) => if 0 <= pos < v.len() { v[pos] } else { "[SCRATCH]"@ },
                    None => "[SCRATCH]"@,
                };
                let h = match slots[i] {
                    SlotView::Value(h) => Some(h),
                    _ => None,
                };
                seq![(name, h)] + stack_labels_from(slots, err, i + 1, q, cur, if cur is Some { pos + 1 } else { pos })
            },
        }
    }
}

/// The labels of all the slots.
pub open spec fn stack_labels_spec(slots: Seq<SlotView>, err: Option<Option<Seq<Seq<char>>>>) -> Seq<(Seq<char>, Option<usize>)> {
    stack_labels_from(slots, err, 0, 0, None, 0)
}

/// The model of optional names held by reference.
pub open spec fn opt_ref_names(cur: Option<&Vec<String>>) -> Option<Seq<Seq<char>>> {
    match cur {
        Some(v) => Some(v@.map_values(|s: String| s@)),
        None => None,
    }
}

/// The positions of the call frames among `slots[1..]`.
fn frame_positions_of(slots: &[StackSlot]) -> (p: Vec<usize>)
    ensures
        p@.len() == frame_positions(slot_views(slots@), slots@.len() as int).len(),
        forall|j: int| 0 <= j < p@.len() ==> #[trigger] p@[j] as int == frame_positions(slot_views(slots@), slots@.len() as int)[j],
{
    let ghost sv = slot_views(slots@);
    let mut p: Vec<usize> = Vec::new();
    let mut i: usize = 1;
    while i < slots.len()
        invariant
            sv == slot_views(slots@),
            1 <= i <= slots@.len() || (i == 1 && slots@.len() == 0),
            p@.len() == frame_positions(sv, i as int).len(),
            forall|j: int| 0 <= j < p@.len() ==> #[trigger] p@[j] as int == frame_positions(sv, i as int)[j],
        decreases slots@.len() - i,
    {
        assert(sv[i as int] == slots@[i as int]@);
        if let StackSlot::CallFrame(_) = &slots[i] {
            p.push(i);
        }
        i = i + 1;
    }
    p
}

/// The register names of the `q`-th frame code.
fn chunk_at<'a>(
    slots: &'a [StackSlot],
    err: &'a Option<Option<Vec<String>>>,
    positions: &Vec<usize>,
    q: usize,
) -> (r: Option<&'a Vec<String>>)
    requires
        positions@.len() == frame_positions(slot_views(slots@), slots@.len() as int).len(),
        forall|j: int| 0 <= j < positions@.len() ==> #[trigger] positions@[j] as int
            == frame_positions(slot_views(slots@), slots@.len() as int)[j],
        forall|j: int| 0 <= j < positions@.len() ==> #[trigger] positions@[j] < slots@.len(),
    ensures
        opt_ref_names(r) == chunk_names(slot_views(slots@), err_view(*err), q as int),
{
    if q < positions.len() {
        let k = positions[q];
        assert(slot_views(slots@)[k as int] == slots@[k as int]@);
        match &slots[k] {
            StackSlot::CallFrame(Some(v)) => Some(v),
            _ => None,
        }
    } else if q == positions.len() {
        match err {
            Some(Some(v)) => Some(v),
            _ => None,
        }
    } else {
        None
    }
}

/// The model of the error frame's register names.
pub open spec fn err_view(err: Option<Option<Vec<String>>>) -> Option<Option<Seq<Seq<char>>>> {
    match err {
        Some(a) => Some(opt_names_view(a)),
        None => None,
    }
}

/// Every frame position is a position of the stack.
proof fn lemma_frame_positions(slots: Seq<SlotView>, n: int)
    requires
        n <= slots.len(),
    ensures
        forall|j: int| 0 <= j < frame_positions(slots, n).len() ==> 1 <= #[trigger] frame_positions(slots, n)[j] < n,
    decreases n,
{
    if n > 1 {
        lemma_frame_positions(slots, n - 1);
        let p = frame_positions(slots, n - 1);
        assert forall|j: int| 0 <= j < frame_positions(slots, n).len() implies
            1 <= #[trigger] frame_positions(slots, n)[j] < n by {
            if j < p.len() {
                assert(frame_positions(slots, n)[j] == p[j]);
            }
        }
    }
}

/// The labels of the stack `slots` (bottom first), given the register names
/// of the error frame's code when there is an error frame (`err`).
pub fn stack_labels(slots: &[StackSlot], err: &Option<Option<Vec<String>>>) -> (labels: Vec<StackLabel>)
    ensures
        labels@.map_values(|l: StackLabel| l@) == stack_labels_spec(slot_views(slots@), err_view(*err)),
{
    let ghost sv = slot_views(slots@);
    let ghost ev = err_view(*err);
    let positions = frame_positions_of(slots);
    proof { lemma_frame_positions(sv, sv.len() as int); }
    let mut labels: Vec<StackLabel> = Vec::new();
    let mut cur: Option<&Vec<String>> = None;
    let mut pos: usize = 0;
    let mut q: usize = 0;
    let mut i: usize = 0;
    while i < slots.len()
        invariant
            sv == slot_views(slots@),
            ev == err_view(*err),
            positions@.len() == frame_positions(sv, sv.len() as int).len(),
            forall|j: int| 0 <= j < positions@.len() ==> #[trigger] positions@[j] as int
                == frame_positions(sv, sv.len() as int)[j],
            forall|j: int| 0 <= j < positions@.len() ==> #[trigger] positions@[j] < slots@.len(),
            0 <= i <= slots@.len(),
            q <= i,
            pos <= i,
            labels@.map_values(|l: StackLabel| l@) + stack_labels_from(sv, ev, i as int, q as int, opt_ref_names(cur), pos as int)
                == stack_labels_spec(sv, ev),
        decreases slots@.len() - i,
    {
        let ghost before = labels@.map_values(|l: StackLabel| l@);
        let ghost rest = stack_labels_from(sv, ev, i as int, q as int, opt_ref_names(cur), pos as int);
        assert(sv[i as int] == slots@[i as int]@);
        match &slots[i] {
            StackSlot::CallFrame(_) => {
                let next = chunk_at(slots, err, &positions, q);
                let label = StackLabel { name: String::from_str("RESULT"), handle: None };
                labels.push(label);
                assert(labels@.map_values(|l: StackLabel| l@) =~= before.push(("RESULT"@, None::<usize>)));
                cur = next;
                pos = 0;
                q = q + 1;
            },
            slot => {
                let handle = match slot {
                    StackSlot::Value(h) => Some(*h),
                    _ => None,
                };
                let name = match cur {
                    Some(v) => {
                        if pos < v.len() {
                            assert(opt_ref_names(cur)->0[pos as int] == v@[pos as int]@);
                            v[pos].clone()
                        } else {
                            String::from_str("[SCRATCH]")
                        }
                    },
                    None => String::from_str("[SCRATCH]"),
                };
                let ghost lv = (name@, handle);
                labels.push(StackLabel { name, handle });
                assert(labels@.map_values(|l: StackLabel| l@) =~= before.push(lv));
                if cur.is_some() {
                    pos = pos + 1;
                }
            },
        }
        assert(before + rest =~= labels@.map_values(|l: StackLabel| l@)
            + stack_labels_from(sv, ev, i + 1, q as int, opt_ref_names(cur), pos as int));
        i = i + 1;
    }
    assert(labels@.map_values(|l: StackLabel| l@) + Seq::<(Seq<char>, Option<usize>)>::empty()
        =~= labels@.map_values(|l: StackLabel| l@));
    labels
}

/// The heap handle that a slot holds, if it holds a heap value.
pub open spec fn slot_handle(slot: SlotView) -> Option<usize> {
    match slot {
        SlotView::Value(h) => Some(h),
        _ => None,
    }
}

/// The lines of a register dump of the `n` registers from `slots[top]` on:
/// each register's label and, for a heap value, its handle (such lines are
/// marked).
pub open spec fn register_lines_spec(
    slots: Seq<SlotView>,
    top: int,
    n: int,
    names: Option<Seq<Seq<char>>>,
) -> Seq<(Seq<char>, Option<usize>)> {
    Seq::new(n as nat, |i: int| (register_label_spec(i, names), slot_handle(slots[top + i])))
}

/// The registers of a frame as shown: the stack positions `start..end`, and
/// one line per register.
#[derive(Debug)]
pub struct RegisterDump {
    pub start: usize,
    pub end: usize,
    pub lines: Vec<StackLabel>,
}

/// The dump of the registers of a frame whose registers start at `stack_top`
/// of the stack `slots`, whose code has `input_regs` input and `extra_regs`
/// further registers and names them `names` (when it does): the result
/// register and the `input_regs + extra_regs` after it.
pub fn register_dump(
    slots: &[StackSlot],
    stack_top: usize,
    input_regs: usize,
    extra_regs: usize,
    names: &Option<Vec<String>>,
) -> (d: RegisterDump)
    requires
        stack_top + input_regs + extra_regs + 1 <= slots@.len(),
    ensures
        d.start == stack_top,
        d.end == stack_top + input_regs + extra_regs + 1,
        d.lines@.map_values(|l: StackLabel| l@) == register_lines_spec(
            slot_views(slots@),
            stack_top as int,
            input_regs + extra_regs + 1,
            opt_names_view(*names),
        ),
{
    let ghost sv = slot_views(slots@);
    let len = slots.len();
    assert(len == slots@.len());
    let n = input_regs + extra_regs + 1;
    let ghost target = register_lines_spec(sv, stack_top as int, n as int, opt_names_view(*names));
    let mut lines: Vec<StackLabel> = Vec::new();
    let mut i: usize = 0;
    while i < n
        invariant
            sv == slot_views(slots@),
            n == input_regs + extra_regs + 1,
            stack_top + n <= slots@.len(),
            len == slots@.len(),
            target == register_lines_spec(sv, stack_top as int, n as int, opt_names_view(*names)),
            0 <= i <= n,
            lines@.map_values(|l: StackLabel| l@) == target.subrange(0, i as int),
        decreases n - i,
    {
        let ghost before = lines@.map_values(|l: StackLabel| l@);
        let name = register_label(i, names);
        assert(sv[stack_top + i] == slots@[stack_top + i]@);
        let handle = match &slots[stack_top + i] {
            StackSlot::Value(h) => Some(*h),
            _ => None,
        };
        let ghost lv = (name@, handle);
        lines.push(StackLabel { name, handle });
        assert(lines@.map_values(|l: StackLabel| l@) =~= before.push(lv));
        assert(target.subrange(0, i + 1) =~= target.subrange(0, i as int).push(target[i as int]));
        i = i + 1;
    }
    assert(target.subrange(0, n as int) =~= target);
    RegisterDump { start: stack_top, end: stack_top + n, lines }
}

/// How reading a line at the debugger prompt ended.
#[derive(Debug)]
pub enum LineRead {
    /// A line was read.
    Line(String),
    /// The input ended.
    EndOfInput,
    /// The read was interrupted.
    Interrupted,
    /// The read failed; the text describes the failure.
    Failed(String),
}

/// What the prompt does after a read.
#[derive(Debug, PartialEq, Eq)]
pub enum PromptStep {
    /// Hand the line to the reader and act on it.
    Evaluate(String),
    /// Prompt again.
    Skip,
    /// Print the text, then prompt again.
    Print(String),
    /// Print the text on the error stream, then prompt again.
    PrintError(String),
}

/// The model of a `LineRead`: a kind (line, end of input, interrupted,
/// failed) and its text.
pub open spec fn line_read_view(r: LineRead) -> (int, Seq<char>) {
    match r {
        LineRead::Line(s) => (0, s@),
        LineRead::EndOfInput => (1, Seq::empty()),
        LineRead::Interrupted => (2, Seq::empty()),
        LineRead::Failed(e) => (3, e@),
    }
}

/// The model of a `PromptStep`: a kind (evaluate, skip, print, print an
/// error) and its text.
pub open spec fn prompt_step_view(p: PromptStep) -> (int, Seq<char>) {
    match p {
        PromptStep::Evaluate(s) => (0, s@),
        PromptStep::Skip => (1, Seq::empty()),
        PromptStep::Print(s) => (2, s@),
        PromptStep::PrintError(s) => (3, s@),
    }
}

/// What the prompt does after a read: a non-empty line is acted on, an empty
/// line or an interrupt prompts again, the end of input prints how to leave,
/// and another failure is reported on the error stream.
pub open spec fn prompt_step_spec(r: (int, Seq<char>)) -> (int, Seq<char>) {
    if r.0 == 0 {
        if r.1.len() == 0 { (1, Seq::empty()) } else { (0, r.1) }
    } else if r.0 == 1 {
        (2, "Enter :abort to exit debug mode and abort the error."@)
    } else if r.0 == 2 {
        (1, Seq::empty())
    } else {
        (3, "Error on input: "@ + r.1)
    }
}

/// `before` followed by `text`.
fn prefixed(before: &str, text: &str) -> (r: String)
    ensures
        r@ == before@ + text@,
{
    let mut r = String::from_str(before);
    r.append(text);
    r
}

/// What the prompt does after the read `r`.
pub fn prompt_step(r: LineRead) -> (p: PromptStep)
    ensures
        prompt_step_view(p) == prompt_step_spec(line_read_view(r)),
{
    match r {
        LineRead::Line(s) => {
            if s.unicode_len() == 0 {
                PromptStep::Skip
            } else {
                PromptStep::Evaluate(s)
            }
        },
        LineRead::EndOfInput => PromptStep::Print(String::from_str("Enter :abort to exit debug mode and abort the error.")),
        LineRead::Interrupted => PromptStep::Skip,
        LineRead::Failed(e) => PromptStep::PrintError(prefixed("Error on input: ", e.as_str())),
    }
}

/// The line printed when the debugger's history could not be loaded, for a
/// failure described by `e`.
pub fn history_error_line(e: &str) -> (r: String)
    ensures
        r@ == "Error loading history: "@ + e@,
{
    prefixed("Error loading history: ", e)
}

/// The line printed when the reader rejects an input line, for a failure
/// described by `e`.
pub fn reader_error_line(e: &str) -> (r: String)
    ensures
        r@ == "Reader error: "@ + e@,
{
    prefixed("Reader error: ", e)
}

/// The line printed when a frame's code cannot be disassembled, for a
/// failure described by `e`.
pub fn disassembly_error_line(e: &str) -> (r: String)
    ensures
        r@ == "Error in disassembly: "@ + e@,
{
    prefixed("Error in disassembly: ", e)
}

} // verus!
