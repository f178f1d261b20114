//! Texts for a terminal: colors, widths and control sequences.
use crate::text;
use crate::text::nat_text;
use vstd::prelude::*;

verus! {

/// How a text is styled.
#[derive(Debug, Clone, Copy, PartialEq, Eq, Structural)]
pub enum TextStyle {
    Dim,
    RedDim,
    WhiteOnRed,
}

/// The control sequences that start a style.
pub open spec fn style_start(style: TextStyle) -> Seq<char> {
    match style {
        TextStyle::Dim => "\x1b[2m"@,
        TextStyle::RedDim => "\x1b[31m\x1b[2m"@,
        TextStyle::WhiteOnRed => "\x1b[37m\x1b[41m"@,
    }
}

/// A text in a style; without colors it stays as it is.
pub open spec fn styled_text(s: Seq<char>, style: TextStyle, colors: bool) -> Seq<char> {
    if colors {
        style_start(style) + s + "\x1b[0m"@
    } else {
        s
    }
}

/// `console::style` with `force_styling`: a text between the control sequences of a style, or as
/// it is where styling is off.
#[verifier::external_body]
pub(crate) fn styled(s: &str, style: TextStyle, colors: bool) -> (r: String)
    ensures
        r@ == styled_text(s@, style, colors),
{
    let plain = console::style(s).force_styling(colors);
    let styled = match style {
        TextStyle::Dim => plain.dim(),
        TextStyle::RedDim => plain.red().dim(),
        TextStyle::WhiteOnRed => plain.white().on_red(),
    };
    styled.to_string()
}

/// A text without the control sequences of a terminal.
pub uninterp spec fn plain_text(s: Seq<char>) -> Seq<char>;

/// `console::strip_ansi_codes`: a text without the control sequences of a terminal.
///
/// The result depends on the text alone.
#[verifier::external_body]
pub(crate) fn strip_ansi(s: &str) -> (r: String)
    ensures
        r@ == plain_text(s@),
{
    console::strip_ansi_codes(s).to_string()
}

/// The number of columns that a text takes on a terminal.
pub uninterp spec fn text_width(s: Seq<char>) -> usize;

/// Whether a text holds printable ASCII characters only.
pub open spec fn is_printable(s: Seq<char>) -> bool {
    forall|i: int| 0 <= i < s.len() ==> ' ' <= #[trigger] s[i] <= '~'
}

/// `console::measure_text_width`: the number of columns that a text takes on a terminal.
///
/// The result depends on the text alone. A printable ASCII character takes one column.
#[verifier::external_body]
pub(crate) fn width_of(s: &str) -> (r: usize)
    ensures
        r == text_width(s@),
        is_printable(s@) ==> r == s@.len(),
{
    console::measure_text_width(s)
}

/// A number of spaces.
pub open spec fn spaces(n: nat) -> Seq<char> {
    Seq::new(n, |i: int| ' ')
}

/// A text with spaces behind it up to a width; one that is wider stays as it is.
pub open spec fn padded(s: Seq<char>, width: usize) -> Seq<char> {
    if text_width(s) < width {
        s + spaces((width - text_width(s)) as nat)
    } else {
        s
    }
}

/// A text with spaces behind it up to a width.
pub fn pad(s: &str, width: usize) -> (r: String)
    ensures
        r@ == padded(s@, width),
        is_printable(s@) && s@.len() <= width ==> r@.len() == width,
{
    let mut out = s.to_string();
    let mut columns: usize = width_of(s);
    let ghost start = columns;
    assert(out@ =~= s@ + spaces(0));
    while columns < width
        invariant
            start == text_width(s@),
            start <= columns,
            columns <= width || columns == start,
            out@ == s@ + spaces((columns - start) as nat),
        decreases width - columns,
    {
        out.push(' ');
        assert(out@ =~= s@ + spaces((columns + 1 - start) as nat));
        columns = columns + 1;
    }
    assert(s@ + spaces(0) =~= s@);
    out
}

/// `console::colors_enabled`: whether colors are used on the standard output.
///
/// The terminal and the environment decide.
#[verifier::external_body]
fn colors_enabled() -> (r: bool) {
    console::colors_enabled()
}

/// Whether this is what the console may answer when it is asked for colors on the standard output.
pub closed spec fn console_tells(colors: bool) -> bool {
    call_ensures(colors_enabled, (), colors)
}

/// Whether colors are used on the standard output: what the console answers.
pub(crate) fn output_colors() -> (r: bool)
    ensures
        console_tells(r),
{
    let ask = colors_enabled;
    ask()
}

/// The bytes of a text in UTF-8.
pub open spec fn bytes_of(s: Seq<char>) -> Seq<u8> {
    vstd::utf8::encode_utf8(s)
}

/// A number that is made of bytes.
pub open spec fn byte_hash(bytes: Seq<u8>) -> usize
    decreases bytes.len(),
{
    if bytes.len() == 0 {
        0x811C_9DC5
    } else {
        byte_hash(bytes.drop_last()).wrapping_mul(0x0100_0193).wrapping_add(bytes.last() as usize)
    }
}

/// A number that is made of the bytes of a text.
pub fn hash_of(s: &str) -> (r: usize)
    ensures
        r == byte_hash(bytes_of(s@)),
{
    let bytes = s.as_bytes();
    let mut h: usize = 0x811C_9DC5;
    let mut i: usize = 0;
    while i < bytes.len()
        invariant
            i <= bytes@.len(),
            h == byte_hash(bytes@.take(i as int)),
        decreases bytes@.len() - i,
    {
        assert(bytes@.take(i + 1).drop_last() =~= bytes@.take(i as int));
        h = h.wrapping_mul(0x0100_0193).wrapping_add(bytes[i] as usize);
        i = i + 1;
    }
    assert(bytes@.take(i as int) =~= bytes@);
    h
}

/// The FNV-1a hash of bytes.
pub open spec fn fnv1a(bytes: Seq<u8>) -> u32
    decreases bytes.len(),
{
    if bytes.len() == 0 {
        0x811C_9DC5
    } else {
        (fnv1a(bytes.drop_last()) ^ (bytes.last() as u32)).wrapping_mul(0x0100_0193)
    }
}

/// The FNV-1a hash of the bytes of a text.
pub fn fnv1a_of(s: &str) -> (r: u32)
    ensures
        r == fnv1a(bytes_of(s@)),
{
    let bytes = s.as_bytes();
    let mut h: u32 = 0x811C_9DC5;
    let mut i: usize = 0;
    while i < bytes.len()
        invariant
            i <= bytes@.len(),
            h == fnv1a(bytes@.take(i as int)),
        decreases bytes@.len() - i,
    {
        assert(bytes@.take(i + 1).drop_last() =~= bytes@.take(i as int));
        h = (h ^ (bytes[i] as u32)).wrapping_mul(0x0100_0193);
        i = i + 1;
    }
    assert(bytes@.take(i as int) =~= bytes@);
    h
}

/// The shares of red, green and blue in the color of a number.
pub open spec fn dim_color(h: u32) -> Seq<char> {
    if h % 6 == 0 {
        "180;120;120"@
    } else if h % 6 == 1 {
        "180;160;100"@
    } else if h % 6 == 2 {
        "120;180;120"@
    } else if h % 6 == 3 {
        "120;180;180"@
    } else if h % 6 == 4 {
        "180;120;180"@
    } else {
        "120;160;180"@
    }
}

/// An identifier in its dim color.
pub open spec fn dimmed(id: Seq<char>, colors: bool) -> Seq<char> {
    if colors {
        "\x1b[2;38;2;"@ + dim_color(fnv1a(bytes_of(id))) + "m"@ + id + "\x1b[0m"@
    } else {
        id
    }
}

/// Return a dimmed, colorized daemon ID string for display.
/// Each daemon gets a deterministic color via FNV-1a hash so that
/// multiple daemons are visually distinguishable while remaining subtle.
pub fn dimmed_id(id: &str, colors_enabled: bool) -> (r: String)
    ensures
        r@ == dimmed(id@, colors_enabled),
{
    if !colors_enabled {
        return id.to_string();
    }
    let h: u32 = fnv1a_of(id);
    let color = if h % 6 == 0 {
        "180;120;120"
    } else if h % 6 == 1 {
        "180;160;100"
    } else if h % 6 == 2 {
        "120;180;120"
    } else if h % 6 == 3 {
        "120;180;180"
    } else if h % 6 == 4 {
        "180;120;180"
    } else {
        "120;160;180"
    };
    "\x1b[2;38;2;".to_string().concat(color).concat("m").concat(id).concat("\x1b[0m")
}

/// The code of the bright color of a number: blue, magenta, cyan or green. Red and yellow would
/// look like errors and warnings.
pub open spec fn label_color(h: usize) -> Seq<char> {
    if h % 4 == 0 {
        "34"@
    } else if h % 4 == 1 {
        "35"@
    } else if h % 4 == 2 {
        "36"@
    } else {
        "32"@
    }
}

/// An identifier in brackets and in its bright color.
pub open spec fn label(id: Seq<char>, colors: bool) -> Seq<char> {
    if colors {
        "\x1b["@ + label_color(byte_hash(bytes_of(id))) + "m["@ + id + "]\x1b[0m"@
    } else {
        "["@ + id + "]"@
    }
}

/// Return a colorized `[namespace/id]` label for display in progress jobs.
/// Uses brighter colors than `dimmed_id` and includes the square brackets.
pub fn colored_id_label(id: &str, colors_enabled: bool) -> (r: String)
    ensures
        r@ == label(id@, colors_enabled),
{
    if !colors_enabled {
        return "[".to_string().concat(id).concat("]");
    }
    let h: usize = hash_of(id);
    let color = if h % 4 == 0 {
        "34"
    } else if h % 4 == 1 {
        "35"
    } else if h % 4 == 2 {
        "36"
    } else {
        "32"
    };
    "\x1b[".to_string().concat(color).concat("m[").concat(id).concat("]\x1b[0m")
}

/// `vte::Params`: the parameters of a control sequence.
#[verifier::external_type_specification]
#[verifier::external_body]
pub struct ExParams(vte::Params);

/// What a terminal is told by a text.
#[derive(Debug)]
pub enum PtyEvent {
    /// To show a character.
    Print(char),
    /// To act on a control character.
    Execute(u8),
    /// To act on a control sequence, with its parameters and their parts.
    Csi { params: Vec<Vec<u16>>, action: char },
    /// Anything else.
    Other,
}

/// What a terminal is told.
pub enum PtyView {
    Print(char),
    Execute(u8),
    Csi(Seq<Seq<u16>>, char),
    Other,
}

impl View for PtyEvent {
    type V = PtyView;

    open spec fn view(&self) -> PtyView {
        match self {
            PtyEvent::Print(c) => PtyView::Print(*c),
            PtyEvent::Execute(b) => PtyView::Execute(*b),
            PtyEvent::Csi { params, action } => PtyView::Csi(param_views(params@), *action),
            PtyEvent::Other => PtyView::Other,
        }
    }
}

/// What the parameters of a control sequence are, each by its parts.
pub uninterp spec fn params_held(params: vte::Params) -> Seq<Seq<u16>>;

/// The values of parameters.
pub open spec fn param_views(params: Seq<Vec<u16>>) -> Seq<Seq<u16>> {
    params.map_values(|p: Vec<u16>| p@)
}

/// `vte::Params::iter`: the parameters of a control sequence in their order, each with its parts.
/// They are what the parameters hold.
#[verifier::external_body]
fn params_of(params: &vte::Params) -> (r: Vec<Vec<u16>>)
    ensures
        param_views(r@) == params_held(*params),
{
    params.iter().map(|p| p.to_vec()).collect()
}

/// Collects what a terminal is told.
struct PtyEvents {
    events: Vec<PtyEvent>,
}

impl View for PtyEvents {
    type V = Seq<PtyView>;

    /// What was told, in order.
    closed spec fn view(&self) -> Seq<PtyView> {
        event_views(self.events@)
    }
}

impl vte::Perform for PtyEvents {
    fn print(&mut self, c: char)
        ensures
            final(self)@ == old(self)@.push(PtyView::Print(c)),
    {
        let ghost before = self@;
        self.events.push(PtyEvent::Print(c));
        assert(self@ =~= before.push(PtyView::Print(c)));
    }

    fn execute(&mut self, byte: u8)
        ensures
            final(self)@ == old(self)@.push(PtyView::Execute(byte)),
    {
        let ghost before = self@;
        self.events.push(PtyEvent::Execute(byte));
        assert(self@ =~= before.push(PtyView::Execute(byte)));
    }

    fn hook(&mut self, _params: &vte::Params, _intermediates: &[u8], _ignore: bool, _action: char)
        ensures
            final(self)@ == old(self)@.push(PtyView::Other),
    {
        let ghost before = self@;
        self.events.push(PtyEvent::Other);
        assert(self@ =~= before.push(PtyView::Other));
    }

    fn put(&mut self, _byte: u8)
        ensures
            final(self)@ == old(self)@.push(PtyView::Other),
    {
        let ghost before = self@;
        self.events.push(PtyEvent::Other);
        assert(self@ =~= before.push(PtyView::Other));
    }

    fn unhook(&mut self)
        ensures
            final(self)@ == old(self)@.push(PtyView::Other),
    {
        let ghost before = self@;
        self.events.push(PtyEvent::Other);
        assert(self@ =~= before.push(PtyView::Other));
    }

    fn osc_dispatch(&mut self, _params: &[&[u8]], _bell_terminated: bool)
        ensures
            final(self)@ == old(self)@.push(PtyView::Other),
    {
        let ghost before = self@;
        self.events.push(PtyEvent::Other);
        assert(self@ =~= before.push(PtyView::Other));
    }

    fn csi_dispatch(
        &mut self,
        params: &vte::Params,
        _intermediates: &[u8],
        _ignore: bool,
        action: char,
    )
        ensures
            final(self)@ == old(self)@.push(PtyView::Csi(params_held(*params), action)),
    {
        let ghost before = self@;
        self.events.push(PtyEvent::Csi { params: params_of(params), action });
        assert(self@ =~= before.push(PtyView::Csi(params_held(*params), action)));
    }

    fn esc_dispatch(&mut self, _intermediates: &[u8], _ignore: bool, _byte: u8)
        ensures
            final(self)@ == old(self)@.push(PtyView::Other),
    {
        let ghost before = self@;
        self.events.push(PtyEvent::Other);
        assert(self@ =~= before.push(PtyView::Other));
    }
}

/// What a terminal is told by a text.
pub uninterp spec fn pty_events(s: Seq<char>) -> Seq<PtyView>;

/// The values of events.
pub open spec fn event_views(events: Seq<PtyEvent>) -> Seq<PtyView> {
    events.map_values(|e: PtyEvent| e@)
}

/// The number of all parts of parameters.
pub open spec fn part_count(params: Seq<Seq<u16>>) -> nat
    decreases params.len(),
{
    if params.len() == 0 {
        0
    } else {
        part_count(params.drop_last()) + params.last().len()
    }
}

/// The number of parts that a control sequence holds at most.
pub const MAX_PARTS: usize = 32;

/// Whether a control sequence can have these parameters.
pub open spec fn are_params(params: Seq<Seq<u16>>) -> bool {
    &&& params.len() > 0
    &&& forall|i: int| 0 <= i < params.len() ==> (#[trigger] params[i]).len() > 0
    &&& part_count(params) <= MAX_PARTS
}

/// Whether a character is one that controls the terminal.
pub open spec fn is_control(c: char) -> bool {
    c < ' ' || ('\u{80}' <= c && c <= '\u{9f}')
}

/// Whether a terminal can be told this: no control character is shown, and a control sequence has
/// parameters.
pub open spec fn can_be_told(event: PtyView) -> bool {
    match event {
        PtyView::Print(c) => !is_control(c),
        PtyView::Csi(params, _) => are_params(params),
        _ => true,
    }
}

/// Whether something is kept of what a terminal is told: a character, a line feed, a tab, or a
/// sequence that sets colors and styles.
pub open spec fn is_kept(event: PtyView) -> bool {
    match event {
        PtyView::Print(c) => !is_control(c),
        PtyView::Execute(b) => b == 9 || b == 10,
        PtyView::Csi(params, action) => action == 'm' && are_params(params),
        PtyView::Other => false,
    }
}

/// Whether something is kept of all events.
pub open spec fn all_kept(events: Seq<PtyView>) -> bool {
    forall|i: int| 0 <= i < events.len() ==> is_kept(#[trigger] events[i])
}

/// `vte::Parser::advance` over the bytes of a text: what a terminal is told by it, in order.
///
/// The result depends on the text alone. A control character is never shown, and a control sequence
/// has at least one parameter, each with a part, and no more parts than the parser has room for. A
/// text that is written from characters, line feeds, tabs and sequences for colors and styles is
/// read as just those.
#[verifier::external_body]
fn parse_pty(s: &str) -> (r: Vec<PtyEvent>)
    ensures
        event_views(r@) == pty_events(s@),
        forall|i: int| 0 <= i < r@.len() ==> can_be_told((#[trigger] r@[i])@),
        forall|events: Seq<PtyView>|
            all_kept(events) && s@ == #[trigger] kept_of_all(events) ==> event_views(r@) == events,
{
    let mut parser = vte::Parser::new();
    let mut events = PtyEvents { events: Vec::new() };
    parser.advance(&mut events, s.as_bytes());
    events.events
}

/// The parts of a parameter.
pub open spec fn param_text(parts: Seq<u16>) -> Seq<char> {
    text::joined(parts.map_values(|p: u16| text::decimal(p as int)), ":"@)
}

/// The parameters of a control sequence.
pub open spec fn params_text(params: Seq<Seq<u16>>) -> Seq<char> {
    text::joined(params.map_values(|p: Seq<u16>| param_text(p)), ";"@)
}

/// What is kept of an event: characters, line feeds and tabs, and the sequences that set colors
/// and styles.
pub open spec fn kept_of(event: PtyView) -> Seq<char> {
    match event {
        PtyView::Print(c) => seq![c],
        PtyView::Execute(b) => if b == 10 {
            seq!['\n']
        } else if b == 9 {
            seq!['\t']
        } else {
            Seq::empty()
        },
        PtyView::Csi(params, action) => if action == 'm' {
            "\x1b["@ + params_text(params) + "m"@
        } else {
            Seq::empty()
        },
        PtyView::Other => Seq::empty(),
    }
}

/// What is kept of events.
pub open spec fn kept_of_all(events: Seq<PtyView>) -> Seq<char>
    decreases events.len(),
{
    if events.len() == 0 {
        Seq::empty()
    } else {
        kept_of_all(events.drop_last()) + kept_of(events.last())
    }
}

fn param_string(parts: &Vec<u16>) -> (r: String)
    ensures
        r@ == param_text(parts@),
{
    let mut list: Vec<String> = Vec::new();
    let ghost goal = parts@.map_values(|p: u16| text::decimal(p as int));
    let mut i: usize = 0;
    while i < parts.len()
        invariant
            i <= parts@.len(),
            goal == parts@.map_values(|p: u16| text::decimal(p as int)),
            text::texts(list@) == goal.take(i as int),
        decreases parts@.len() - i,
    {
        let ghost before = text::texts(list@);
        list.push(nat_text(parts[i] as u64));
        assert(text::texts(list@) =~= before.push(goal[i as int]));
        i = i + 1;
    }
    assert(text::texts(list@) =~= goal);
    text::join(&list, ":")
}

fn params_string(params: &Vec<Vec<u16>>) -> (r: String)
    ensures
        r@ == params_text(params@.map_values(|p: Vec<u16>| p@)),
{
    let mut list: Vec<String> = Vec::new();
    let ghost views = params@.map_values(|p: Vec<u16>| p@);
    let ghost goal = views.map_values(|p: Seq<u16>| param_text(p));
    let mut i: usize = 0;
    while i < params.len()
        invariant
            i <= params@.len(),
            views == params@.map_values(|p: Vec<u16>| p@),
            goal == views.map_values(|p: Seq<u16>| param_text(p)),
            text::texts(list@) == goal.take(i as int),
        decreases params@.len() - i,
    {
        let ghost before = text::texts(list@);
        list.push(param_string(&params[i]));
        assert(text::texts(list@) =~= before.push(goal[i as int]));
        i = i + 1;
    }
    assert(text::texts(list@) =~= goal);
    text::join(&list, ";")
}

/// What is kept of events: characters, line feeds and tabs, and the sequences that set colors and
/// styles.
pub fn keep_styles(events: &Vec<PtyEvent>) -> (r: String)
    ensures
        r@ == kept_of_all(event_views(events@)),
{
    let mut out = String::new();
    let ghost all = event_views(events@);
    let mut i: usize = 0;
    assert(out@ =~= kept_of_all(all.take(0)));
    while i < events.len()
        invariant
            i <= events@.len(),
            all == event_views(events@),
            out@ == kept_of_all(all.take(i as int)),
        decreases events@.len() - i,
    {
        let ghost before = out@;
        assert(all.take(i + 1).drop_last() =~= all.take(i as int));
        assert(all.take(i + 1).last() == events@[i as int]@);
        match &events[i] {
            PtyEvent::Print(c) => {
                out.push(*c);
                assert(out@ =~= before + seq![*c]);
            },
            PtyEvent::Execute(b) => {
                if *b == 10 {
                    out.push('\n');
                    assert(out@ =~= before + seq!['\n']);
                } else if *b == 9 {
                    out.push('\t');
                    assert(out@ =~= before + seq!['\t']);
                } else {
                    assert(out@ =~= before + Seq::<char>::empty());
                }
            },
            PtyEvent::Csi { params, action } => {
                if *action == 'm' {
                    out = out.concat("\x1b[").concat(params_string(params).as_str()).concat("m");
                    assert(out@ =~= before + kept_of(events@[i as int]@));
                } else {
                    assert(out@ =~= before + Seq::<char>::empty());
                }
            },
            PtyEvent::Other => {
                assert(out@ =~= before + Seq::<char>::empty());
            },
        }
        i = i + 1;
    }
    assert(all.take(i as int) =~= all);
    out
}

/// A text without the control sequences that move the cursor or clear the screen.
pub open spec fn without_controls(s: Seq<char>) -> Seq<char> {
    kept_of_all(pty_events(s))
}

/// The events of which something is kept.
pub open spec fn kept_events(events: Seq<PtyView>) -> Seq<PtyView>
    decreases events.len(),
{
    if events.len() == 0 {
        Seq::empty()
    } else if is_kept(events.last()) {
        kept_events(events.drop_last()).push(events.last())
    } else {
        kept_events(events.drop_last())
    }
}

/// Whether a text is written from characters, line feeds, tabs and sequences that set colors and
/// styles.
pub open spec fn is_styled(s: Seq<char>) -> bool {
    exists|events: Seq<PtyView>| all_kept(events) && s == #[trigger] kept_of_all(events)
}

/// What is kept of events is what is kept of those of which something is.
proof fn lemma_kept_events(events: Seq<PtyView>)
    requires
        forall|i: int| 0 <= i < events.len() ==> can_be_told(#[trigger] events[i]),
    ensures
        all_kept(kept_events(events)),
        kept_of_all(kept_events(events)) == kept_of_all(events),
    decreases events.len(),
{
    if events.len() > 0 {
        let before = events.drop_last();
        let last = events.last();
        assert forall|i: int| 0 <= i < before.len() implies can_be_told(#[trigger] before[i]) by {
            assert(before[i] == events[i]);
        }
        lemma_kept_events(before);
        assert(can_be_told(events[events.len() - 1]));
        if is_kept(last) {
            assert(kept_events(events).drop_last() =~= kept_events(before));
        } else {
            assert(kept_of(last) =~= Seq::<char>::empty());
            assert(kept_of_all(events) =~= kept_of_all(before));
        }
    }
}

/// Strips PTY control sequences from a string while preserving SGR (color/style) codes.
///
/// Removes CSI sequences that control cursor movement, screen clearing, erasing, etc.,
/// but keeps `\x1b[...m` (SGR) sequences so colors are retained. What is left stays as it is when it
/// is stripped again.
pub fn strip_pty_controls(s: &str) -> (r: String)
    ensures
        r@ == without_controls(s@),
        is_styled(r@),
        is_styled(s@) ==> r@ == s@,
{
    let events = parse_pty(s);
    proof {
        let told = event_views(events@);
        assert forall|i: int| 0 <= i < told.len() implies can_be_told(#[trigger] told[i]) by {
            assert(told[i] == events@[i]@);
        }
        lemma_kept_events(told);
        assert(is_styled(kept_of_all(told)));
    }
    keep_styles(&events)
}

/// Whether a character can stand between the start and the end of a sequence that sets a style.
pub open spec fn is_style_char(c: char) -> bool {
    text::is_digit(c) || c == ';' || c == ':'
}

/// Whether a sequence that sets a style begins at a position.
pub open spec fn begins_style(s: Seq<char>, at: int) -> bool {
    exists|end: int| #[trigger] is_style(s, at, end)
}

/// Whether a sequence that sets a style stands from a position to another one.
pub open spec fn is_style(s: Seq<char>, at: int, end: int) -> bool {
    &&& 0 <= at && at + 1 < end < s.len()
    &&& s[at] == '\x1b'
    &&& s[at + 1] == '['
    &&& s[end] == 'm'
    &&& forall|k: int| at + 1 < k < end ==> is_style_char(#[trigger] s[k])
}

/// Whether the control characters of a text below the space are line feeds, tabs and the starts of
/// sequences that set styles.
pub open spec fn has_few_controls(s: Seq<char>) -> bool {
    forall|i: int|
        0 <= i < s.len() && (#[trigger] s[i]) < ' ' ==> s[i] == '\n' || s[i] == '\t'
            || begins_style(s, i)
}

proof fn lemma_joined_style(list: Seq<Seq<char>>, sep: Seq<char>)
    requires
        forall|i: int, k: int|
            0 <= i < list.len() && 0 <= k < list[i].len() ==> is_style_char(#[trigger] list[i][k]),
        forall|k: int| 0 <= k < sep.len() ==> is_style_char(#[trigger] sep[k]),
    ensures
        forall|k: int|
            0 <= k < text::joined(list, sep).len() ==> is_style_char(
                #[trigger] text::joined(list, sep)[k],
            ),
    decreases list.len(),
{
    let all = text::joined(list, sep);
    if list.len() > 1 {
        let before = list.drop_last();
        assert forall|i: int, k: int|
            0 <= i < before.len() && 0 <= k < before[i].len() implies is_style_char(
            #[trigger] before[i][k],
        ) by {
            assert(before[i] == list[i]);
            assert(is_style_char(list[i][k]));
        }
        lemma_joined_style(before, sep);
        let head = text::joined(before, sep);
        assert forall|k: int| 0 <= k < all.len() implies is_style_char(#[trigger] all[k]) by {
            if k < head.len() {
                assert(all[k] == head[k]);
            } else if k < head.len() + sep.len() {
                assert(all[k] == sep[k - head.len()]);
            } else {
                let last = list.len() - 1;
                assert(all[k] == list[last][k - head.len() - sep.len()]);
            }
        }
    } else if list.len() == 1 {
        assert forall|k: int| 0 <= k < all.len() implies is_style_char(#[trigger] all[k]) by {
            assert(is_style_char(list[0][k]));
        }
    }
}

proof fn lemma_params_style(params: Seq<Seq<u16>>)
    ensures
        forall|k: int|
            0 <= k < params_text(params).len() ==> is_style_char(#[trigger] params_text(params)[k]),
{
    reveal_strlit(":");
    reveal_strlit(";");
    let list = params.map_values(|p: Seq<u16>| param_text(p));
    assert forall|i: int, k: int|
        0 <= i < list.len() && 0 <= k < list[i].len() implies is_style_char(#[trigger] list[i][k]) by {
        let parts = params[i].map_values(|p: u16| text::decimal(p as int));
        assert forall|n: int, m: int|
            0 <= n < parts.len() && 0 <= m < parts[n].len() implies is_style_char(
            #[trigger] parts[n][m],
        ) by {
            text::lemma_digits_value(params[i][n] as nat);
        }
        lemma_joined_style(parts, ":"@);
        assert(list[i] == param_text(params[i]));
    }
    lemma_joined_style(list, ";"@);
}

proof fn lemma_piece_has_few_controls(event: PtyView)
    requires
        is_kept(event),
    ensures
        has_few_controls(kept_of(event)),
{
    let piece = kept_of(event);
    if let PtyView::Csi(params, _) = event {
        reveal_strlit("\x1b[");
        reveal_strlit("m");
        lemma_params_style(params);
        let body = params_text(params);
        let end = piece.len() - 1;
        assert(piece.len() == body.len() + 3);
        assert forall|k: int| 1 < k < end implies is_style_char(#[trigger] piece[k]) by {
            assert(piece[k] == body[k - 2]);
        }
        assert(is_style(piece, 0, end));
        assert forall|i: int| 0 <= i < piece.len() && (#[trigger] piece[i]) < ' ' implies piece[i]
            == '\n' || piece[i] == '\t' || begins_style(piece, i) by {
            if 1 < i < end {
                assert(is_style_char(piece[i]));
            }
        }
    }
}

/// Of the control characters below the space a styled text holds line feeds, tabs and the starts of
/// sequences that set styles only.
pub proof fn styled_text_has_few_controls(s: Seq<char>)
    requires
        is_styled(s),
    ensures
        has_few_controls(s),
{
    let events = choose|events: Seq<PtyView>|
        all_kept(events) && s == #[trigger] kept_of_all(events);
    lemma_kept_has_few_controls(events);
}

proof fn lemma_kept_has_few_controls(events: Seq<PtyView>)
    requires
        all_kept(events),
    ensures
        has_few_controls(kept_of_all(events)),
    decreases events.len(),
{
    if events.len() > 0 {
        let before = events.drop_last();
        assert forall|i: int| 0 <= i < before.len() implies is_kept(#[trigger] before[i]) by {
            assert(before[i] == events[i]);
        }
        lemma_kept_has_few_controls(before);
        assert(is_kept(events[events.len() - 1]));
        lemma_piece_has_few_controls(events.last());
        let head = kept_of_all(before);
        let piece = kept_of(events.last());
        let all = kept_of_all(events);
        assert forall|i: int| 0 <= i < all.len() && (#[trigger] all[i]) < ' ' implies all[i] == '\n'
            || all[i] == '\t' || begins_style(all, i) by {
            if i < head.len() {
                assert(all[i] == head[i]);
                if begins_style(head, i) {
                    let end = choose|end: int| #[trigger] is_style(head, i, end);
                    assert(is_style(all, i, end)) by {
                        assert forall|k: int| i + 1 < k < end implies is_style_char(
                            #[trigger] all[k],
                        ) by {
                            assert(all[k] == head[k]);
                        }
                    }
                }
            } else {
                let at = i - head.len();
                assert(all[i] == piece[at]);
                if begins_style(piece, at) {
                    let end = choose|end: int| #[trigger] is_style(piece, at, end);
                    assert(is_style(all, i, end + head.len())) by {
                        assert forall|k: int| i + 1 < k < end + head.len() implies is_style_char(
                            #[trigger] all[k],
                        ) by {
                            assert(all[k] == piece[k - head.len()]);
                        }
                    }
                }
            }
        }
    }
}

/// Whether a character is a Unicode scalar value, as every one of a string is.
pub open spec fn is_scalar(c: char) -> bool {
    c <= '\u{d7ff}' || ('\u{e000}' <= c && c <= '\u{10ffff}')
}

/// To show each character of a text.
pub open spec fn printed(s: Seq<char>) -> Seq<PtyView>
    decreases s.len(),
{
    if s.len() == 0 {
        Seq::empty()
    } else {
        printed(s.drop_last()).push(PtyView::Print(s.last()))
    }
}

proof fn lemma_printed(s: Seq<char>)
    requires
        forall|i: int| 0 <= i < s.len() ==> is_scalar(#[trigger] s[i]) && !is_control(s[i]),
    ensures
        all_kept(printed(s)),
        kept_of_all(printed(s)) == s,
    decreases s.len(),
{
    let events = printed(s);
    if s.len() > 0 {
        let before = s.drop_last();
        assert forall|i: int| 0 <= i < before.len() implies is_scalar(#[trigger] before[i])
            && !is_control(before[i]) by {
            assert(before[i] == s[i]);
        }
        lemma_printed(before);
        assert(!is_control(s[s.len() - 1]));
        assert(is_scalar(s[s.len() - 1]));
        assert(events.drop_last() =~= printed(before));
        assert(s =~= before + seq![s.last()]);
    } else {
        assert(kept_of_all(events) =~= s);
    }
}

/// A text without control characters is a styled one, and so stays as it is.
pub proof fn text_without_controls_is_styled(s: Seq<char>)
    requires
        forall|i: int| 0 <= i < s.len() ==> is_scalar(#[trigger] s[i]) && !is_control(s[i]),
    ensures
        is_styled(s),
{
    lemma_printed(s);
}

/// A padded text begins with the text and goes on with spaces, as many as it is narrower than the
/// width.
pub proof fn padding_is_spaces_behind(s: Seq<char>, width: usize)
    ensures
        padded(s, width).take(s.len() as int) == s,
        forall|i: int| s.len() <= i < padded(s, width).len() ==> #[trigger] padded(s, width)[i]
            == ' ',
        text_width(s) <= width ==> padded(s, width).len() == s.len() + (width - text_width(s)),
        text_width(s) >= width ==> padded(s, width) == s,
{
    assert(padded(s, width).take(s.len() as int) =~= s);
    if text_width(s) == width {
        assert(padded(s, width) =~= s);
    }
}

/// A styled text holds the text between a control sequence and the one that ends all styles;
/// without colors it is the text.
pub proof fn styles_surround_the_text(s: Seq<char>, style: TextStyle)
    ensures
        styled_text(s, style, false) == s,
        styled_text(s, TextStyle::Dim, true) == "\x1b[2m"@ + s + "\x1b[0m"@,
        styled_text(s, TextStyle::RedDim, true) == "\x1b[31m\x1b[2m"@ + s + "\x1b[0m"@,
        styled_text(s, TextStyle::WhiteOnRed, true) == "\x1b[37m\x1b[41m"@ + s + "\x1b[0m"@,
{
}

/// A hash takes in one byte after the other: FNV-1a mixes it in before it multiplies, the other
/// hash adds it behind.
pub proof fn hashes_take_in_bytes(bytes: Seq<u8>, b: u8)
    ensures
        fnv1a(Seq::empty()) == 0x811C_9DC5u32,
        fnv1a(bytes.push(b)) == (fnv1a(bytes) ^ (b as u32)).wrapping_mul(0x0100_0193),
        byte_hash(Seq::empty()) == 0x811C_9DC5usize,
        byte_hash(bytes.push(b)) == byte_hash(bytes).wrapping_mul(0x0100_0193).wrapping_add(
            b as usize,
        ),
{
    assert(bytes.push(b).drop_last() =~= bytes);
}

/// A dimmed identifier is the identifier in one of six colors, which its hash chooses; without
/// colors it is the identifier.
pub proof fn dimmed_identifiers_keep_their_color(id: Seq<char>)
    ensures
        dimmed(id, false) == id,
        dimmed(id, true) == "\x1b[2;38;2;"@ + dim_color(fnv1a(bytes_of(id))) + "m"@ + id
            + "\x1b[0m"@,
        forall|h: u32|
            #![trigger dim_color(h)]
            {
                &&& h % 6 == 0 ==> dim_color(h) == "180;120;120"@
                &&& h % 6 == 1 ==> dim_color(h) == "180;160;100"@
                &&& h % 6 == 2 ==> dim_color(h) == "120;180;120"@
                &&& h % 6 == 3 ==> dim_color(h) == "120;180;180"@
                &&& h % 6 == 4 ==> dim_color(h) == "180;120;180"@
                &&& h % 6 == 5 ==> dim_color(h) == "120;160;180"@
            },
{
}

/// A label is the identifier in brackets, in one of four colors, which its hash chooses.
pub proof fn labels_are_in_brackets(id: Seq<char>)
    ensures
        label(id, false) == "["@ + id + "]"@,
        label(id, true) == "\x1b["@ + label_color(byte_hash(bytes_of(id))) + "m["@ + id
            + "]\x1b[0m"@,
        forall|h: usize|
            #![trigger label_color(h)]
            {
                &&& h % 4 == 0 ==> label_color(h) == "34"@
                &&& h % 4 == 1 ==> label_color(h) == "35"@
                &&& h % 4 == 2 ==> label_color(h) == "36"@
                &&& h % 4 == 3 ==> label_color(h) == "32"@
            },
{
}

/// What is kept of a text is kept piece by piece: characters, line feeds, tabs and the sequences
/// that set styles, with their parameters; of everything else nothing is.
pub proof fn styles_and_characters_are_kept(a: Seq<PtyView>, b: Seq<PtyView>, e: PtyView)
    ensures
        kept_of_all(a + b) == kept_of_all(a) + kept_of_all(b),
        kept_of_all(seq![e]) == kept_of(e),
        kept_of_all(Seq::empty()).len() == 0,
        match e {
            PtyView::Print(c) => kept_of(e) == seq![c],
            PtyView::Execute(10) => kept_of(e) == seq!['\n'],
            PtyView::Execute(9) => kept_of(e) == seq!['\t'],
            PtyView::Execute(_) => kept_of(e).len() == 0,
            PtyView::Csi(params, 'm') => kept_of(e) == "\x1b["@ + params_text(params) + "m"@,
            PtyView::Csi(_, _) => kept_of(e).len() == 0,
            PtyView::Other => kept_of(e).len() == 0,
        },
    decreases b.len(),
{
    let none = Seq::<PtyView>::empty();
    assert(seq![e].drop_last() =~= none);
    assert(kept_of_all(none).len() == 0);
    assert(kept_of_all(seq![e]) == kept_of_all(none) + kept_of(seq![e].last()));
    assert(kept_of_all(seq![e]) =~= kept_of(e));
    if b.len() == 0 {
        assert(a + b =~= a);
        assert(kept_of_all(a) + kept_of_all(b) =~= kept_of_all(a));
    } else {
        styles_and_characters_are_kept(a, b.drop_last(), e);
        assert((a + b).drop_last() =~= a + b.drop_last());
        assert((a + b).last() == b.last());
        assert(kept_of_all(a + b) =~= kept_of_all(a) + kept_of_all(b));
    }
}

/// The parameters of a style are separated by semicolons and their parts by colons.
pub proof fn style_parameters_are_separated(p: u16, parts: Seq<u16>, params: Seq<Seq<u16>>)
    ensures
        param_text(seq![p]) == text::decimal(p as int),
        parts.len() > 0 ==> param_text(seq![p] + parts) == text::decimal(p as int) + ":"@
            + param_text(parts),
        params_text(seq![parts]) == param_text(parts),
        params.len() > 0 ==> params_text(seq![parts] + params) == param_text(parts) + ";"@
            + params_text(params),
{
    let shown = |q: u16| text::decimal(q as int);
    let written = |q: Seq<u16>| param_text(q);
    assert(seq![p].map_values(shown) =~= seq![text::decimal(p as int)]);
    assert((seq![p] + parts).map_values(shown) =~= seq![text::decimal(p as int)]
        + parts.map_values(shown));
    text::lists_are_joined_with_separators(
        seq![text::decimal(p as int)],
        parts.map_values(shown),
        ":"@,
    );
    assert(seq![parts].map_values(written) =~= seq![param_text(parts)]);
    assert((seq![parts] + params).map_values(written) =~= seq![param_text(parts)]
        + params.map_values(written));
    text::lists_are_joined_with_separators(
        seq![param_text(parts)],
        params.map_values(written),
        ";"@,
    );
}

} // verus!
