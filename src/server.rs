use vstd::prelude::*;
use crate::command::{
    CommandQueue, CommandView, DistState, InsertPosition, Markup, MarkupView, NotifyKind,
    PlotSource, SampleParams, insert_ui, remove_ui, render_ui, show_notification, update_input,
};
use crate::cursor::{ChangeCursor, differs, law_fires_iff_written_since, snapshot, written_since};
use crate::input::{InputPool, Num, Payload, PayloadView, revision_in};

verus! {

/// Smallest accepted sample size.
pub const SAMPLE_MIN: u64 = 1;

/// Largest accepted sample size.
pub const SAMPLE_MAX: u64 = 10000;

/// Markdown longer than this many bytes draws a warning (it is still rendered).
pub const MARKDOWN_LIMIT: usize = 5000;

/// Bit pattern of the float 0.1, the default standard deviation.
pub const SD_DEFAULT_BITS: u64 = 0x3FB9_9999_9999_999A;

/// Bit pattern of the float -1.0, the mean of an inserted plot's samples.
pub const INSERT_MEAN_BITS: u64 = 0xBFF0_0000_0000_0000;

/// Bit pattern of the float 0.5, the deviation of an inserted plot's samples.
pub const INSERT_SD_BITS: u64 = 0x3FE0_0000_0000_0000;

/// Size of each sample of an inserted plot.
pub const INSERT_N: u64 = 50;

/// Default interval between liveness probes, in milliseconds.
pub const HB_INTERVAL_MS: u64 = 5000;

/// Default time without acknowledgment after which a session is closed, in
/// milliseconds.
pub const CLIENT_TIMEOUT_MS: u64 = 10000;

/// Lifecycle of a session. Transitions only go forward; `Closed` is final.
#[derive(Clone, Copy, PartialEq, Eq, Structural, Debug)]
pub enum SessionState {
    Initializing,
    Active,
    Closing,
    Closed,
}

/// What the host does after a heartbeat timer fired.
#[derive(Clone, Copy, PartialEq, Eq, Structural, Debug)]
pub enum HeartbeatAction {
    /// Send a liveness probe to the client.
    Ping,
    /// The client stopped answering: the session was closed; stop it.
    Stop,
    /// The session is not active: nothing to do.
    Idle,
}

/// Name for what comrak renders from a Markdown text with default options.
pub uninterp spec fn markdown_html_of(md: Seq<char>) -> Seq<char>;

/// Relies on comrak::markdown_to_html with default options, which renders
/// the HTML from the text alone and does not fail.
#[verifier::external_body]
fn markdown_to_html(md: &str) -> (r: String)
    ensures
        r@ == markdown_html_of(md@),
{
    comrak::markdown_to_html(md, &comrak::Options::default())
}

/// One client session of the demo application: its inputs, the reactive
/// blocks' cursors, the samples it keeps and its liveness bookkeeping.
pub struct CustomServer {
    pub hb: u64,
    pub input: InputPool,
    pub event: String,
    pub state: SessionState,
    pub dist1: DistState,
    pub dist2: DistState,
    pub draws: u64,
    pub hb_interval: u64,
    pub client_timeout: u64,
    pub md_block: ChangeCursor,
    pub insert_block: ChangeCursor,
    pub remove_block: ChangeCursor,
    pub dist1_block: ChangeCursor,
    pub dist2_block: ChangeCursor,
    pub text1_block: ChangeCursor,
    pub text2_block: ChangeCursor,
}

pub open spec fn whole_or(m: Map<Seq<char>, (PayloadView, u64)>, key: Seq<char>, d: u64) -> u64 {
    if m.contains_key(key) && m[key].0 is UInt {
        m[key].0->UInt_0
    } else {
        d
    }
}

pub open spec fn number_or(m: Map<Seq<char>, (PayloadView, u64)>, key: Seq<char>, d: Num) -> Num {
    if m.contains_key(key) && m[key].0 is UInt {
        Num::Whole(m[key].0->UInt_0)
    } else if m.contains_key(key) && m[key].0 is Float {
        Num::Bits(m[key].0->Float_0)
    } else {
        d
    }
}

pub open spec fn text_or_empty(m: Map<Seq<char>, (PayloadView, u64)>, key: Seq<char>) -> Seq<char> {
    if m.contains_key(key) && m[key].0 is Text {
        m[key].0->Text_0
    } else {
        Seq::empty()
    }
}

pub open spec fn in_range(n: u64) -> bool {
    SAMPLE_MIN <= n <= SAMPLE_MAX
}

pub open spec fn next_generation(g: u64) -> u64 {
    if g == u64::MAX {
        0
    } else {
        (g + 1) as u64
    }
}

/// Sample parameters read from the inputs `n`, `mean`, `sd`, with their
/// defaults (0, 0.0 and 0.1).
pub open spec fn params_of(
    m: Map<Seq<char>, (PayloadView, u64)>,
    n: Seq<char>,
    mean: Seq<char>,
    sd: Seq<char>,
) -> SampleParams {
    SampleParams {
        n: whole_or(m, n, 0),
        mean: number_or(m, mean, Num::Bits(0)),
        sd: number_or(m, sd, Num::Bits(SD_DEFAULT_BITS)),
    }
}

pub open spec fn params1(m: Map<Seq<char>, (PayloadView, u64)>) -> SampleParams {
    params_of(m, "n-1:shiny.number"@, "mean-1:shiny.number"@, "sd-1:shiny.number"@)
}

pub open spec fn params2(m: Map<Seq<char>, (PayloadView, u64)>) -> SampleParams {
    params_of(m, "n-2:shiny.number"@, "mean-2:shiny.number"@, "sd-2:shiny.number"@)
}

/// The notification that rejects a sample size. Its id is fixed per sample
/// block, so a repeated rejection of the same input replaces the notice still
/// shown instead of stacking another one.
pub open spec fn range_notice(id: Seq<char>) -> CommandView {
    CommandView::Notify {
        id,
        html: "Number out of range"@,
        kind: NotifyKind::Error,
        closeable: true,
        actions: Seq::empty(),
    }
}

/// The notification that warns of an over-long Markdown text.
pub open spec fn markdown_notice() -> CommandView {
    CommandView::Notify {
        id: "markdown_warning"@,
        html: "Exceeded 5,000 characters!"@,
        kind: NotifyKind::Error,
        closeable: true,
        actions: Seq::empty(),
    }
}

/// The plot of the two kept samples.
pub open spec fn plot_command(d1: DistState, d2: DistState) -> CommandView {
    CommandView::Render {
        target: "plot1"@,
        markup: MarkupView::Plot(PlotSource::Kept(d1), PlotSource::Kept(d2)),
    }
}

/// What the Markdown block queues for text `md` rendered as `html`.
pub open spec fn markdown_commands(md: Seq<char>, html: Seq<char>) -> Seq<CommandView> {
    (if vstd::utf8::encode_utf8(md).len() > MARKDOWN_LIMIT {
        seq![markdown_notice()]
    } else {
        Seq::empty()
    }) + seq![CommandView::Render { target: "rendered_md"@, markup: MarkupView::Html(html) }]
}

pub open spec fn insert_params() -> SampleParams {
    SampleParams { n: INSERT_N, mean: Num::Bits(INSERT_MEAN_BITS), sd: Num::Bits(INSERT_SD_BITS) }
}

pub open spec fn insert_command() -> CommandView {
    CommandView::InsertUI {
        selector: "#insert_section"@,
        position: InsertPosition::AfterBegin,
        markup: MarkupView::Plot(
            PlotSource::Fresh(insert_params()),
            PlotSource::Fresh(insert_params()),
        ),
    }
}

pub open spec fn label_command(target: Seq<char>, label: Seq<char>) -> CommandView {
    CommandView::UpdateInput { target, props: seq![("label"@, label)] }
}

/// A kept sample after its block ran with parameters `p`: redrawn when the
/// size is in range, else left as it was.
pub open spec fn redraw(d: DistState, draws: u64, p: SampleParams) -> DistState {
    if in_range(p.n) {
        DistState { params: p, generation: next_generation(draws) }
    } else {
        d
    }
}

pub open spec fn redraw_count(draws: u64, p: SampleParams) -> u64 {
    if in_range(p.n) {
        next_generation(draws)
    } else {
        draws
    }
}

/// What a sample block queues: a rejection when the size is out of range,
/// then the plot.
pub open spec fn sample_commands(
    p: SampleParams,
    id: Seq<char>,
    d1: DistState,
    d2: DistState,
) -> Seq<CommandView> {
    (if in_range(p.n) {
        Seq::empty()
    } else {
        seq![range_notice(id)]
    }) + seq![plot_command(d1, d2)]
}

impl CustomServer {
    /// The session's inputs.
    pub open spec fn pool(&self) -> Map<Seq<char>, (PayloadView, u64)> {
        self.input@
    }

    /// The name of the last event the session saw.
    pub open spec fn event(&self) -> Seq<char> {
        self.event@
    }

    pub open spec fn state(&self) -> SessionState {
        self.state
    }

    pub open spec fn last_ack(&self) -> u64 {
        self.hb
    }

    pub open spec fn hb_interval_ms(&self) -> u64 {
        self.hb_interval
    }

    pub open spec fn client_timeout_ms(&self) -> u64 {
        self.client_timeout
    }

    pub open spec fn dist1(&self) -> DistState {
        self.dist1
    }

    pub open spec fn dist2(&self) -> DistState {
        self.dist2
    }

    pub open spec fn draws(&self) -> u64 {
        self.draws
    }

    pub closed spec fn wf(&self) -> bool {
        &&& self.input.wf()
        &&& self.md_block.wf() && self.md_block.deps() == seq!["markdown"@]
        &&& self.insert_block.wf() && self.insert_block.deps() == seq!["insert_ui:shiny.action"@]
        &&& self.remove_block.wf() && self.remove_block.deps() == seq!["remove_ui:shiny.action"@]
        &&& self.dist1_block.wf() && self.dist1_block.deps() == seq![
            "n-1:shiny.number"@,
            "mean-1:shiny.number"@,
            "sd-1:shiny.number"@,
        ]
        &&& self.dist2_block.wf() && self.dist2_block.deps() == seq![
            "n-2:shiny.number"@,
            "mean-2:shiny.number"@,
            "sd-2:shiny.number"@,
        ]
        &&& self.text1_block.wf() && self.text1_block.deps() == seq!["text1"@]
        &&& self.text2_block.wf() && self.text2_block.deps() == seq!["text2"@]
    }

    pub open spec fn fires_markdown(&self) -> bool {
        differs(self.md_block.deps(), self.md_block.seen(), self.input@)
    }

    pub open spec fn fires_insert(&self) -> bool {
        differs(self.insert_block.deps(), self.insert_block.seen(), self.input@)
    }

    pub open spec fn fires_remove(&self) -> bool {
        differs(self.remove_block.deps(), self.remove_block.seen(), self.input@)
    }

    pub open spec fn fires_dist1(&self) -> bool {
        differs(self.dist1_block.deps(), self.dist1_block.seen(), self.input@)
    }

    pub open spec fn fires_dist2(&self) -> bool {
        differs(self.dist2_block.deps(), self.dist2_block.seen(), self.input@)
    }

    pub open spec fn fires_text1(&self) -> bool {
        differs(self.text1_block.deps(), self.text1_block.seen(), self.input@)
    }

    pub open spec fn fires_text2(&self) -> bool {
        differs(self.text2_block.deps(), self.text2_block.seen(), self.input@)
    }

    /// No block fires until an input it depends on is written again.
    pub open spec fn settled(&self) -> bool {
        &&& self.md_block.seen() == snapshot(self.md_block.deps(), self.input@)
        &&& self.insert_block.seen() == snapshot(self.insert_block.deps(), self.input@)
        &&& self.remove_block.seen() == snapshot(self.remove_block.deps(), self.input@)
        &&& self.dist1_block.seen() == snapshot(self.dist1_block.deps(), self.input@)
        &&& self.dist2_block.seen() == snapshot(self.dist2_block.deps(), self.input@)
        &&& self.text1_block.seen() == snapshot(self.text1_block.deps(), self.input@)
        &&& self.text2_block.seen() == snapshot(self.text2_block.deps(), self.input@)
    }

    /// The first kept sample after an update pass.
    pub open spec fn dist1_after(&self) -> DistState {
        if self.fires_dist1() {
            redraw(self.dist1(), self.draws(), params1(self.pool()))
        } else {
            self.dist1()
        }
    }

    pub open spec fn draws_mid(&self) -> u64 {
        if self.fires_dist1() {
            redraw_count(self.draws(), params1(self.pool()))
        } else {
            self.draws()
        }
    }

    /// The second kept sample after an update pass.
    pub open spec fn dist2_after(&self) -> DistState {
        if self.fires_dist2() {
            redraw(self.dist2(), self.draws_mid(), params2(self.pool()))
        } else {
            self.dist2()
        }
    }

    pub open spec fn draws_after(&self) -> u64 {
        if self.fires_dist2() {
            redraw_count(self.draws_mid(), params2(self.pool()))
        } else {
            self.draws_mid()
        }
    }

    pub open spec fn markdown_piece(&self) -> Seq<CommandView> {
        if self.fires_markdown() {
            let md = text_or_empty(self.pool(), "markdown"@);
            markdown_commands(md, markdown_html_of(md))
        } else {
            Seq::empty()
        }
    }

    pub open spec fn insert_piece(&self) -> Seq<CommandView> {
        if self.fires_insert() {
            seq![insert_command()]
        } else {
            Seq::empty()
        }
    }

    pub open spec fn remove_piece(&self) -> Seq<CommandView> {
        if self.fires_remove() {
            seq![CommandView::RemoveUI { selector: "#insert_section div"@ }]
        } else {
            Seq::empty()
        }
    }

    pub open spec fn dist1_piece(&self) -> Seq<CommandView> {
        if self.fires_dist1() {
            sample_commands(params1(self.pool()), "n-1:range_error"@, self.dist1_after(), self.dist2())
        } else {
            Seq::empty()
        }
    }

    pub open spec fn dist2_piece(&self) -> Seq<CommandView> {
        if self.fires_dist2() {
            sample_commands(
                params2(self.pool()),
                "n-2:range_error"@,
                self.dist1_after(),
                self.dist2_after(),
            )
        } else {
            Seq::empty()
        }
    }

    pub open spec fn text1_piece(&self) -> Seq<CommandView> {
        if self.fires_text1() {
            seq![label_command("text2"@, text_or_empty(self.pool(), "text1"@))]
        } else {
            Seq::empty()
        }
    }

    pub open spec fn text2_piece(&self) -> Seq<CommandView> {
        if self.fires_text2() {
            seq![label_command("text1"@, text_or_empty(self.pool(), "text2"@))]
        } else {
            Seq::empty()
        }
    }

    /// The commands one update pass queues, block by block in declaration
    /// order.
    pub open spec fn update_commands(&self) -> Seq<CommandView> {
        self.markdown_piece() + self.insert_piece() + self.remove_piece() + self.dist1_piece()
            + self.dist2_piece() + self.text1_piece() + self.text2_piece()
    }
}

/// The kinds of message a session processes.
#[derive(Clone, Copy, PartialEq, Eq, Structural, Debug)]
pub enum EventKind {
    Start,
    Input,
    Tick,
    Heartbeat,
    Ack,
    Close,
}

/// Whether a session in state `s` acts on a message of kind `e`; every other
/// message leaves it untouched.
pub open spec fn accepts(s: SessionState, e: EventKind) -> bool {
    match e {
        EventKind::Start => s == SessionState::Initializing,
        EventKind::Close => s == SessionState::Initializing || s == SessionState::Active,
        _ => s == SessionState::Active,
    }
}

/// Whether the client has not acknowledged for longer than `timeout` since
/// `last_ack`.
pub open spec fn timed_out(last_ack: u64, now: u64, timeout: u64) -> bool {
    now as int - last_ack as int > timeout as int
}

/// The state after a message of kind `e`; `expired` tells, for a heartbeat,
/// whether the client timed out.
pub open spec fn next_state(s: SessionState, e: EventKind, expired: bool) -> SessionState {
    if !accepts(s, e) {
        s
    } else {
        match e {
            EventKind::Start => SessionState::Active,
            EventKind::Close => SessionState::Closed,
            EventKind::Heartbeat => if expired {
                SessionState::Closed
            } else {
                s
            },
            _ => s,
        }
    }
}

/// The writes of a batch applied in order to the pool view `m` whose last
/// revision was `rev`: the i-th write gets revision `rev + i + 1`.
pub open spec fn apply_writes(
    m: Map<Seq<char>, (PayloadView, u64)>,
    rev: u64,
    w: Seq<(Seq<char>, PayloadView)>,
) -> Map<Seq<char>, (PayloadView, u64)>
    decreases w.len(),
{
    if w.len() == 0 {
        m
    } else {
        apply_writes(m, rev, w.drop_last()).insert(
            w.last().0,
            (w.last().1, (rev + w.len()) as u64),
        )
    }
}

/// The sample kept before any has been drawn: size 0, default mean and
/// deviation.
pub open spec fn initial_dist() -> DistState {
    DistState {
        params: SampleParams { n: 0, mean: Num::Bits(0), sd: Num::Bits(SD_DEFAULT_BITS) },
        generation: 0,
    }
}

fn number_or_default(r: Option<Num>, d: Num) -> (v: Num)
    ensures
        v == (match r {
            Some(x) => x,
            None => d,
        }),
{
    match r {
        Some(x) => x,
        None => d,
    }
}

/// Reads sample parameters from the inputs `n`, `mean` and `sd`, with the
/// defaults 0, 0.0 and 0.1.
fn read_params(pool: &InputPool, n: &str, mean: &str, sd: &str) -> (r: SampleParams)
    requires
        pool.wf(),
    ensures
        r == params_of(pool@, n@, mean@, sd@),
{
    let count = match pool.get_u64(n) {
        Some(v) => v,
        None => 0,
    };
    let m = number_or_default(pool.get_number(mean), Num::Bits(0));
    let d = number_or_default(pool.get_number(sd), Num::Bits(SD_DEFAULT_BITS));
    SampleParams { n: count, mean: m, sd: d }
}

/// Records a new drawing of a sample with parameters `p`, stamped with the
/// next generation.
fn sample_dist(draws: &mut u64, p: SampleParams) -> (r: DistState)
    ensures
        *final(draws) == next_generation(*old(draws)),
        r == (DistState { params: p, generation: next_generation(*old(draws)) }),
{
    if *draws == u64::MAX {
        *draws = 0;
    } else {
        *draws = *draws + 1;
    }
    DistState { params: p, generation: *draws }
}

/// Queues the plot of the two kept samples.
fn build_plot(session: &mut CommandQueue, dist1: DistState, dist2: DistState)
    ensures
        final(session)@ == old(session)@.push(plot_command(dist1, dist2)),
{
    render_ui(session, "plot1", Markup::Plot(PlotSource::Kept(dist1), PlotSource::Kept(dist2)));
}

/// Whether `n` is an accepted sample size; when it is not, queues the
/// rejection notice with id `id`.
pub fn validate_range(session: &mut CommandQueue, n: u64, id: &str) -> (ok: bool)
    ensures
        ok == in_range(n),
        final(session)@ == old(session)@ + (if ok {
            Seq::<CommandView>::empty()
        } else {
            seq![range_notice(id@)]
        }),
{
    if SAMPLE_MIN <= n && n <= SAMPLE_MAX {
        assert(session@ =~= session@ + Seq::<CommandView>::empty());
        true
    } else {
        show_notification(session, id.to_owned(), "Number out of range", NotifyKind::Error, true);
        assert(final(session)@ =~= old(session)@ + seq![range_notice(id@)]);
        false
    }
}

/// Queues what the Markdown block shows for text `md` rendered as `html`:
/// a warning when the text is longer than the limit, then the HTML.
pub fn render_markdown(session: &mut CommandQueue, md: &str, html: String)
    ensures
        final(session)@ == old(session)@ + markdown_commands(md@, html@),
{
    let ghost q0 = session@;
    if md.as_bytes().len() > MARKDOWN_LIMIT {
        show_notification(
            session,
            "markdown_warning".to_owned(),
            "Exceeded 5,000 characters!",
            NotifyKind::Error,
            true,
        );
    }
    render_ui(session, "rendered_md", Markup::Html(html));
    assert(session@ =~= q0 + markdown_commands(md@, html@));
}

fn deps_of_one(a: &str) -> (r: Vec<String>)
    ensures
        r@.map_values(|s: String| s@) == seq![a@],
{
    let mut v: Vec<String> = Vec::new();
    v.push(a.to_owned());
    assert(v@.map_values(|s: String| s@) =~= seq![a@]);
    v
}

fn deps_of_three(a: &str, b: &str, c: &str) -> (r: Vec<String>)
    ensures
        r@.map_values(|s: String| s@) == seq![a@, b@, c@],
{
    let mut v: Vec<String> = Vec::new();
    v.push(a.to_owned());
    v.push(b.to_owned());
    v.push(c.to_owned());
    assert(v@.map_values(|s: String| s@) =~= seq![a@, b@, c@]);
    v
}

impl CustomServer {
    /// The blocks' cursors of `self` and `other` are the same.
    pub open spec fn same_blocks(&self, other: &CustomServer) -> bool {
        &&& self.md_block == other.md_block
        &&& self.insert_block == other.insert_block
        &&& self.remove_block == other.remove_block
        &&& self.dist1_block == other.dist1_block
        &&& self.dist2_block == other.dist2_block
        &&& self.text1_block == other.text1_block
        &&& self.text2_block == other.text2_block
    }

    /// A session with the default heartbeat interval and client timeout.
    pub fn new() -> (r: CustomServer)
        ensures
            r.wf(),
            r.settled(),
            r.pool() == Map::<Seq<char>, (PayloadView, u64)>::empty(),
            r.state() == SessionState::Initializing,
            r.event() == "Init"@,
            r.hb_interval_ms() == HB_INTERVAL_MS,
            r.client_timeout_ms() == CLIENT_TIMEOUT_MS,
            r.last_ack() == 0,
            r.revision() == 0,
            r.dist1() == initial_dist(),
            r.dist2() == initial_dist(),
            r.draws() == 0,
    {
        CustomServer::with_timing(HB_INTERVAL_MS, CLIENT_TIMEOUT_MS)
    }

    /// A session whose heartbeat fires every `hb_interval` milliseconds and
    /// which closes after `client_timeout` milliseconds without
    /// acknowledgment.
    pub fn with_timing(hb_interval: u64, client_timeout: u64) -> (r: CustomServer)
        ensures
            r.wf(),
            r.settled(),
            r.pool() == Map::<Seq<char>, (PayloadView, u64)>::empty(),
            r.state() == SessionState::Initializing,
            r.event() == "Init"@,
            r.hb_interval_ms() == hb_interval,
            r.client_timeout_ms() == client_timeout,
            r.last_ack() == 0,
            r.revision() == 0,
            r.dist1() == initial_dist(),
            r.dist2() == initial_dist(),
            r.draws() == 0,
    {
        let r = CustomServer {
            hb: 0,
            input: InputPool::new(),
            event: "Init".to_owned(),
            state: SessionState::Initializing,
            dist1: DistState {
                params: SampleParams { n: 0, mean: Num::Bits(0), sd: Num::Bits(SD_DEFAULT_BITS) },
                generation: 0,
            },
            dist2: DistState {
                params: SampleParams { n: 0, mean: Num::Bits(0), sd: Num::Bits(SD_DEFAULT_BITS) },
                generation: 0,
            },
            draws: 0,
            hb_interval,
            client_timeout,
            md_block: ChangeCursor::new(deps_of_one("markdown")),
            insert_block: ChangeCursor::new(deps_of_one("insert_ui:shiny.action")),
            remove_block: ChangeCursor::new(deps_of_one("remove_ui:shiny.action")),
            dist1_block: ChangeCursor::new(
                deps_of_three("n-1:shiny.number", "mean-1:shiny.number", "sd-1:shiny.number"),
            ),
            dist2_block: ChangeCursor::new(
                deps_of_three("n-2:shiny.number", "mean-2:shiny.number", "sd-2:shiny.number"),
            ),
            text1_block: ChangeCursor::new(deps_of_one("text1")),
            text2_block: ChangeCursor::new(deps_of_one("text2")),
        };
        assert(r.md_block.seen() =~= snapshot(r.md_block.deps(), r.input@));
        assert(r.insert_block.seen() =~= snapshot(r.insert_block.deps(), r.input@));
        assert(r.remove_block.seen() =~= snapshot(r.remove_block.deps(), r.input@));
        assert(r.dist1_block.seen() =~= snapshot(r.dist1_block.deps(), r.input@));
        assert(r.dist2_block.seen() =~= snapshot(r.dist2_block.deps(), r.input@));
        assert(r.text1_block.seen() =~= snapshot(r.text1_block.deps(), r.input@));
        assert(r.text2_block.seen() =~= snapshot(r.text2_block.deps(), r.input@));
        r
    }
}

/// The first rendering: draws both samples from the current inputs (sizes
/// are not checked here) and queues their plot.
pub fn initialize(shiny: &mut CustomServer, session: &mut CommandQueue)
    requires
        old(shiny).wf(),
    ensures
        final(shiny).wf(),
        final(shiny).pool() == old(shiny).pool(),
        final(shiny).revision() == old(shiny).revision(),
        final(shiny).event() == old(shiny).event(),
        final(shiny).same_blocks(old(shiny)),
        final(shiny).state() == old(shiny).state(),
        final(shiny).last_ack() == old(shiny).last_ack(),
        final(shiny).hb_interval_ms() == old(shiny).hb_interval_ms(),
        final(shiny).client_timeout_ms() == old(shiny).client_timeout_ms(),
        final(shiny).draws() == next_generation(next_generation(old(shiny).draws())),
        final(shiny).dist1() == (DistState {
            params: params1(old(shiny).pool()),
            generation: next_generation(old(shiny).draws()),
        }),
        final(shiny).dist2() == (DistState {
            params: params2(old(shiny).pool()),
            generation: final(shiny).draws(),
        }),
        final(session)@ == old(session)@.push(plot_command(final(shiny).dist1(), final(shiny).dist2())),
{
    let p1 = read_params(&shiny.input, "n-1:shiny.number", "mean-1:shiny.number", "sd-1:shiny.number");
    shiny.dist1 = sample_dist(&mut shiny.draws, p1);
    let p2 = read_params(&shiny.input, "n-2:shiny.number", "mean-2:shiny.number", "sd-2:shiny.number");
    shiny.dist2 = sample_dist(&mut shiny.draws, p2);
    build_plot(session, shiny.dist1, shiny.dist2);
}

proof fn lemma_concat_seven(
    q: Seq<CommandView>,
    a: Seq<CommandView>,
    b: Seq<CommandView>,
    c: Seq<CommandView>,
    d: Seq<CommandView>,
    e: Seq<CommandView>,
    f: Seq<CommandView>,
    g: Seq<CommandView>,
)
    ensures
        q + a + b + c + d + e + f + g == q + (a + b + c + d + e + f + g),
{
    vstd::seq_lib::lemma_concat_associative(q, a, b);
    vstd::seq_lib::lemma_concat_associative(q, a + b, c);
    vstd::seq_lib::lemma_concat_associative(q, a + b + c, d);
    vstd::seq_lib::lemma_concat_associative(q, a + b + c + d, e);
    vstd::seq_lib::lemma_concat_associative(q, a + b + c + d + e, f);
    vstd::seq_lib::lemma_concat_associative(q, a + b + c + d + e + f, g);
}

fn markdown_block(cursor: &mut ChangeCursor, pool: &InputPool, session: &mut CommandQueue)
    requires
        old(cursor).wf(),
        pool.wf(),
    ensures
        final(cursor).wf(),
        final(cursor).deps() == old(cursor).deps(),
        final(cursor).seen() == snapshot(old(cursor).deps(), pool@),
        final(session)@ == old(session)@ + (if differs(old(cursor).deps(), old(cursor).seen(), pool@) {
            markdown_commands(
                text_or_empty(pool@, "markdown"@),
                markdown_html_of(text_or_empty(pool@, "markdown"@)),
            )
        } else {
            Seq::empty()
        }),
{
    if cursor.changed(pool) {
        let md = match pool.get_string("markdown") {
            Some(t) => t,
            None => String::new(),
        };
        let html = markdown_to_html(md.as_str());
        render_markdown(session, md.as_str(), html);
    } else {
        assert(session@ =~= session@ + Seq::<CommandView>::empty());
    }
}

fn insert_block(cursor: &mut ChangeCursor, pool: &InputPool, session: &mut CommandQueue)
    requires
        old(cursor).wf(),
        pool.wf(),
    ensures
        final(cursor).wf(),
        final(cursor).deps() == old(cursor).deps(),
        final(cursor).seen() == snapshot(old(cursor).deps(), pool@),
        final(session)@ == old(session)@ + (if differs(old(cursor).deps(), old(cursor).seen(), pool@) {
            seq![insert_command()]
        } else {
            Seq::empty()
        }),
{
    let ghost q0 = session@;
    if cursor.changed(pool) {
        let p = SampleParams {
            n: INSERT_N,
            mean: Num::Bits(INSERT_MEAN_BITS),
            sd: Num::Bits(INSERT_SD_BITS),
        };
        insert_ui(
            session,
            "#insert_section",
            InsertPosition::AfterBegin,
            Markup::Plot(PlotSource::Fresh(p), PlotSource::Fresh(p)),
        );
        assert(session@ =~= q0 + seq![insert_command()]);
    } else {
        assert(session@ =~= q0 + Seq::<CommandView>::empty());
    }
}

fn remove_block(cursor: &mut ChangeCursor, pool: &InputPool, session: &mut CommandQueue)
    requires
        old(cursor).wf(),
        pool.wf(),
    ensures
        final(cursor).wf(),
        final(cursor).deps() == old(cursor).deps(),
        final(cursor).seen() == snapshot(old(cursor).deps(), pool@),
        final(session)@ == old(session)@ + (if differs(old(cursor).deps(), old(cursor).seen(), pool@) {
            seq![CommandView::RemoveUI { selector: "#insert_section div"@ }]
        } else {
            Seq::empty()
        }),
{
    let ghost q0 = session@;
    if cursor.changed(pool) {
        remove_ui(session, "#insert_section div");
        assert(session@ =~= q0 + seq![CommandView::RemoveUI { selector: "#insert_section div"@ }]);
    } else {
        assert(session@ =~= q0 + Seq::<CommandView>::empty());
    }
}

/// A sample block: on a change of its inputs, redraws the sample `dist` when
/// the size is in range (else rejects it and keeps the sample), then plots.
/// `first` tells whether `dist` is the first of the two plotted samples.
fn sample_block(
    cursor: &mut ChangeCursor,
    pool: &InputPool,
    dist: &mut DistState,
    other: DistState,
    first: bool,
    draws: &mut u64,
    session: &mut CommandQueue,
    n: &str,
    mean: &str,
    sd: &str,
    id: &str,
)
    requires
        old(cursor).wf(),
        pool.wf(),
    ensures
        final(cursor).wf(),
        final(cursor).deps() == old(cursor).deps(),
        final(cursor).seen() == snapshot(old(cursor).deps(), pool@),
        ({
            let fired = differs(old(cursor).deps(), old(cursor).seen(), pool@);
            let p = params_of(pool@, n@, mean@, sd@);
            &&& *final(dist) == if fired {
                redraw(*old(dist), *old(draws), p)
            } else {
                *old(dist)
            }
            &&& *final(draws) == if fired {
                redraw_count(*old(draws), p)
            } else {
                *old(draws)
            }
            &&& final(session)@ == old(session)@ + if fired {
                if first {
                    sample_commands(p, id@, *final(dist), other)
                } else {
                    sample_commands(p, id@, other, *final(dist))
                }
            } else {
                Seq::empty()
            }
        }),
{
    let ghost q0 = session@;
    if cursor.changed(pool) {
        let p = read_params(pool, n, mean, sd);
        if validate_range(session, p.n, id) {
            *dist = sample_dist(draws, p);
        }
        if first {
            build_plot(session, *dist, other);
        } else {
            build_plot(session, other, *dist);
        }
        assert(session@ =~= q0 + if first {
            sample_commands(p, id@, *dist, other)
        } else {
            sample_commands(p, id@, other, *dist)
        });
    } else {
        assert(session@ =~= q0 + Seq::<CommandView>::empty());
    }
}

/// A label block: on a change of input `source`, sets the label of input
/// `target` to its text.
fn label_block(
    cursor: &mut ChangeCursor,
    pool: &InputPool,
    session: &mut CommandQueue,
    source: &str,
    target: &str,
)
    requires
        old(cursor).wf(),
        pool.wf(),
    ensures
        final(cursor).wf(),
        final(cursor).deps() == old(cursor).deps(),
        final(cursor).seen() == snapshot(old(cursor).deps(), pool@),
        final(session)@ == old(session)@ + (if differs(old(cursor).deps(), old(cursor).seen(), pool@) {
            seq![label_command(target@, text_or_empty(pool@, source@))]
        } else {
            Seq::empty()
        }),
{
    let ghost q0 = session@;
    if cursor.changed(pool) {
        let val = match pool.get_string(source) {
            Some(t) => t,
            None => String::new(),
        };
        let mut props: Vec<(String, String)> = Vec::new();
        props.push(("label".to_owned(), val));
        assert(props@.map_values(|p: (String, String)| (p.0@, p.1@)) =~= seq![
            ("label"@, text_or_empty(pool@, source@)),
        ]);
        update_input(session, target, props);
        assert(session@ =~= q0 + seq![label_command(target@, text_or_empty(pool@, source@))]);
    } else {
        assert(session@ =~= q0 + Seq::<CommandView>::empty());
    }
}

/// One evaluation pass: runs each reactive block in declaration order; a
/// block acts only when one of its inputs was written since it last ran,
/// and every block then catches up with the inputs.
#[verifier::rlimit(50)]
pub fn update(shiny: &mut CustomServer, session: &mut CommandQueue)
    requires
        old(shiny).wf(),
    ensures
        final(shiny).wf(),
        final(shiny).settled(),
        final(shiny).pool() == old(shiny).pool(),
        final(shiny).revision() == old(shiny).revision(),
        final(shiny).event() == old(shiny).event(),
        final(shiny).state() == old(shiny).state(),
        final(shiny).last_ack() == old(shiny).last_ack(),
        final(shiny).hb_interval_ms() == old(shiny).hb_interval_ms(),
        final(shiny).client_timeout_ms() == old(shiny).client_timeout_ms(),
        final(shiny).dist1() == old(shiny).dist1_after(),
        final(shiny).dist2() == old(shiny).dist2_after(),
        final(shiny).draws() == old(shiny).draws_after(),
        final(session)@ == old(session)@ + old(shiny).update_commands(),
{
    let ghost s0 = *shiny;
    let ghost q0 = session@;
    markdown_block(&mut shiny.md_block, &shiny.input, session);
    let ghost q1 = session@;
    insert_block(&mut shiny.insert_block, &shiny.input, session);
    let ghost q2 = session@;
    remove_block(&mut shiny.remove_block, &shiny.input, session);
    let ghost q3 = session@;
    let other = shiny.dist2;
    sample_block(
        &mut shiny.dist1_block,
        &shiny.input,
        &mut shiny.dist1,
        other,
        true,
        &mut shiny.draws,
        session,
        "n-1:shiny.number",
        "mean-1:shiny.number",
        "sd-1:shiny.number",
        "n-1:range_error",
    );
    let ghost q4 = session@;
    let other = shiny.dist1;
    sample_block(
        &mut shiny.dist2_block,
        &shiny.input,
        &mut shiny.dist2,
        other,
        false,
        &mut shiny.draws,
        session,
        "n-2:shiny.number",
        "mean-2:shiny.number",
        "sd-2:shiny.number",
        "n-2:range_error",
    );
    let ghost q5 = session@;
    label_block(&mut shiny.text1_block, &shiny.input, session, "text1", "text2");
    let ghost q6 = session@;
    label_block(&mut shiny.text2_block, &shiny.input, session, "text2", "text1");
    proof {
        assert(q1 == q0 + s0.markdown_piece());
        assert(q2 == q1 + s0.insert_piece());
        assert(q3 == q2 + s0.remove_piece());
        assert(q4 == q3 + s0.dist1_piece());
        assert(q5 == q4 + s0.dist2_piece());
        assert(q6 == q5 + s0.text1_piece());
        assert(session@ == q6 + s0.text2_piece());
        lemma_concat_seven(
            q0,
            s0.markdown_piece(),
            s0.insert_piece(),
            s0.remove_piece(),
            s0.dist1_piece(),
            s0.dist2_piece(),
            s0.text1_piece(),
            s0.text2_piece(),
        );
    }
}

/// Periodic background work; this application has none.
pub fn tick(shiny: &mut CustomServer, session: &mut CommandQueue)
    ensures
        *final(shiny) == *old(shiny),
        final(session)@ == old(session)@,
{
}

/// A fresh session of this application, with the default timing.
pub fn create_server() -> (r: CustomServer)
    ensures
        r.wf(),
        r.settled(),
        r.pool() == Map::<Seq<char>, (PayloadView, u64)>::empty(),
        r.state() == SessionState::Initializing,
        r.hb_interval_ms() == HB_INTERVAL_MS,
        r.client_timeout_ms() == CLIENT_TIMEOUT_MS,
        r.event() == "Init"@,
        r.last_ack() == 0,
        r.revision() == 0,
        r.dist1() == initial_dist(),
        r.dist2() == initial_dist(),
        r.draws() == 0,
{
    CustomServer::new()
}

/// The writes of a batch as keys and payload values.
pub open spec fn writes_of(batch: Seq<(String, Payload)>) -> Seq<(Seq<char>, PayloadView)> {
    batch.map_values(|w: (String, Payload)| (w.0@, w.1@))
}

impl CustomServer {
    /// The last revision the session's inputs handed out.
    pub open spec fn revision(&self) -> u64 {
        self.input.current_revision()
    }

    /// `self` equals `other` but for the inputs.
    pub open spec fn same_but_pool(&self, other: &CustomServer) -> bool {
        &&& self.same_blocks(other)
        &&& self.hb == other.hb
        &&& self.event == other.event
        &&& self.state == other.state
        &&& self.dist1 == other.dist1
        &&& self.dist2 == other.dist2
        &&& self.draws == other.draws
        &&& self.hb_interval == other.hb_interval
        &&& self.client_timeout == other.client_timeout
    }

    /// `self` is what an update pass leaves of `before`.
    pub open spec fn evaluated_from(&self, before: &CustomServer) -> bool {
        &&& self.wf()
        &&& self.settled()
        &&& self.pool() == before.pool()
        &&& self.state() == before.state()
        &&& self.last_ack() == before.last_ack()
        &&& self.hb_interval_ms() == before.hb_interval_ms()
        &&& self.client_timeout_ms() == before.client_timeout_ms()
        &&& self.dist1() == before.dist1_after()
        &&& self.dist2() == before.dist2_after()
        &&& self.draws() == before.draws_after()
    }

    /// Starts the session: runs the first rendering, takes `now` (in
    /// milliseconds) as the last acknowledgment and becomes active.
    pub fn started(&mut self, now: u64, session: &mut CommandQueue) -> (accepted: bool)
        requires
            old(self).wf(),
        ensures
            final(self).wf(),
            accepted == accepts(old(self).state(), EventKind::Start),
            final(self).state() == next_state(old(self).state(), EventKind::Start, false),
            final(self).event() == old(self).event(),
            final(self).hb_interval_ms() == old(self).hb_interval_ms(),
            final(self).client_timeout_ms() == old(self).client_timeout_ms(),
            old(self).settled() ==> final(self).settled(),
            !accepted ==> *final(self) == *old(self) && final(session)@ == old(session)@,
            accepted ==> final(self).last_ack() == now && final(self).pool() == old(self).pool()
                && final(self).revision() == old(self).revision()
                && final(self).draws() == next_generation(next_generation(old(self).draws()))
                && final(self).dist1() == (DistState {
                params: params1(old(self).pool()),
                generation: next_generation(old(self).draws()),
            }) && final(self).dist2() == (DistState {
                params: params2(old(self).pool()),
                generation: final(self).draws(),
            }) && final(session)@ == old(session)@.push(
                plot_command(final(self).dist1(), final(self).dist2()),
            ),
    {
        if self.state != SessionState::Initializing {
            return false;
        }
        initialize(self, session);
        self.hb = now;
        self.state = SessionState::Active;
        true
    }

    /// Writes a batch of inputs in order, then runs one update pass; only an
    /// active session accepts it.
    pub fn handle_input(&mut self, batch: Vec<(String, Payload)>, session: &mut CommandQueue) -> (accepted: bool)
        requires
            old(self).wf(),
            old(self).revision() + batch@.len() <= u64::MAX,
        ensures
            final(self).wf(),
            accepted == accepts(old(self).state(), EventKind::Input),
            final(self).state() == old(self).state(),
            final(self).event() == old(self).event(),
            final(self).last_ack() == old(self).last_ack(),
            final(self).hb_interval_ms() == old(self).hb_interval_ms(),
            final(self).client_timeout_ms() == old(self).client_timeout_ms(),
            !accepted ==> *final(self) == *old(self) && final(session)@ == old(session)@,
            accepted ==> final(self).revision() == old(self).revision() + batch@.len(),
            accepted ==> final(self).pool() == apply_writes(
                old(self).pool(),
                old(self).revision(),
                writes_of(batch@),
            ),
            accepted ==> exists|mid: CustomServer|
                #![auto]
                mid.wf() && mid.same_but_pool(old(self)) && mid.pool() == final(self).pool()
                    && final(self).evaluated_from(&mid) && final(session)@ == old(session)@
                    + mid.update_commands(),
    {
        if self.state != SessionState::Active {
            return false;
        }
        let ghost s0 = *self;
        let ghost w = writes_of(batch@);
        let mut i: usize = 0;
        while i < batch.len()
            invariant
                self.wf(),
                self.same_but_pool(&s0),
                i <= batch@.len(),
                w == writes_of(batch@),
                s0.revision() + batch@.len() <= u64::MAX,
                self.revision() == s0.revision() + i,
                self.pool() == apply_writes(s0.pool(), s0.revision(), w.take(i as int)),
            decreases batch@.len() - i,
        {
            let payload = batch[i].1.duplicate();
            self.input.set(batch[i].0.as_str(), payload);
            proof {
                assert(w.take(i + 1).drop_last() =~= w.take(i as int));
            }
            i = i + 1;
        }
        assert(w.take(batch@.len() as int) =~= w);
        let ghost mid = *self;
        update(self, session);
        assert(self.evaluated_from(&mid));
        true
    }

    /// Runs the periodic background work of an active session.
    pub fn on_tick(&mut self, session: &mut CommandQueue) -> (accepted: bool)
        ensures
            accepted == accepts(old(self).state(), EventKind::Tick),
            *final(self) == *old(self),
            final(session)@ == old(session)@,
    {
        if self.state != SessionState::Active {
            return false;
        }
        tick(self, session);
        true
    }

    /// The session's lifecycle state.
    pub fn session_state(&self) -> (r: SessionState)
        ensures
            r == self.state(),
    {
        self.state
    }

    /// Milliseconds between two heartbeat timers.
    pub fn heartbeat_interval(&self) -> (r: u64)
        ensures
            r == self.hb_interval_ms(),
    {
        self.hb_interval
    }

    /// The two kept samples.
    pub fn kept_samples(&self) -> (r: (DistState, DistState))
        ensures
            r == (self.dist1(), self.dist2()),
    {
        (self.dist1, self.dist2)
    }

    /// Records a liveness acknowledgment received at `now`.
    pub fn acknowledge(&mut self, now: u64) -> (accepted: bool)
        ensures
            accepted == accepts(old(self).state(), EventKind::Ack),
            !accepted ==> *final(self) == *old(self),
            accepted ==> *final(self) == (CustomServer { hb: now, ..*old(self) }),
            accepted ==> final(self).last_ack() == now,
            old(self).wf() ==> final(self).wf(),
            old(self).settled() ==> final(self).settled(),
            final(self).state() == old(self).state(),
            final(self).hb_interval_ms() == old(self).hb_interval_ms(),
            final(self).client_timeout_ms() == old(self).client_timeout_ms(),
            final(self).pool() == old(self).pool(),
    {
        if self.state != SessionState::Active {
            return false;
        }
        self.hb = now;
        true
    }

    /// Closes the session: drops the queued commands unsent and releases the
    /// inputs. A closed session accepts no further message.
    pub fn close(&mut self, session: &mut CommandQueue) -> (accepted: bool)
        requires
            old(self).wf(),
        ensures
            final(self).wf(),
            accepted == accepts(old(self).state(), EventKind::Close),
            final(self).state() == next_state(old(self).state(), EventKind::Close, false),
            !accepted ==> *final(self) == *old(self) && final(session)@ == old(session)@,
            accepted ==> final(session)@ == Seq::<CommandView>::empty() && final(self).pool()
                == Map::<Seq<char>, (PayloadView, u64)>::empty() && final(self).revision() == 0,
    {
        if self.state != SessionState::Initializing && self.state != SessionState::Active {
            return false;
        }
        self.state = SessionState::Closing;
        session.discard();
        self.input = InputPool::new();
        self.state = SessionState::Closed;
        true
    }

    /// The heartbeat timer fired at `now`: an active session whose client
    /// has not acknowledged for longer than the timeout closes and asks the
    /// host to stop it; otherwise it asks for a probe to be sent.
    pub fn heartbeat(&mut self, now: u64, session: &mut CommandQueue) -> (r: HeartbeatAction)
        requires
            old(self).wf(),
        ensures
            final(self).wf(),
            final(self).state() == next_state(
                old(self).state(),
                EventKind::Heartbeat,
                timed_out(old(self).last_ack(), now, old(self).client_timeout_ms()),
            ),
            !accepts(old(self).state(), EventKind::Heartbeat) ==> r == HeartbeatAction::Idle
                && *final(self) == *old(self) && final(session)@ == old(session)@,
            accepts(old(self).state(), EventKind::Heartbeat) && timed_out(
                old(self).last_ack(),
                now,
                old(self).client_timeout_ms(),
            ) ==> r == HeartbeatAction::Stop && final(session)@ == Seq::<CommandView>::empty()
                && final(self).pool() == Map::<Seq<char>, (PayloadView, u64)>::empty()
                && final(self).revision() == 0,
            accepts(old(self).state(), EventKind::Heartbeat) && !timed_out(
                old(self).last_ack(),
                now,
                old(self).client_timeout_ms(),
            ) ==> r == HeartbeatAction::Ping && *final(self) == *old(self) && final(session)@
                == old(session)@,
    {
        if self.state != SessionState::Active {
            return HeartbeatAction::Idle;
        }
        if now > self.hb && now - self.hb > self.client_timeout {
            self.close(session);
            HeartbeatAction::Stop
        } else {
            HeartbeatAction::Ping
        }
    }
}

/// Whether the writes `w` write key `k`.
pub open spec fn writes_key(w: Seq<(Seq<char>, PayloadView)>, k: Seq<char>) -> bool {
    exists|i: int| 0 <= i < w.len() && #[trigger] w[i].0 == k
}

/// Whether the writes `w` write one of the keys `deps`.
pub open spec fn writes_any(w: Seq<(Seq<char>, PayloadView)>, deps: Seq<Seq<char>>) -> bool {
    exists|j: int| 0 <= j < deps.len() && #[trigger] writes_key(w, deps[j])
}

proof fn lemma_apply_writes_revision(
    m: Map<Seq<char>, (PayloadView, u64)>,
    rev: u64,
    w: Seq<(Seq<char>, PayloadView)>,
    k: Seq<char>,
)
    requires
        revision_in(m, k) <= rev,
        rev + w.len() <= u64::MAX,
    ensures
        writes_key(w, k) ==> revision_in(apply_writes(m, rev, w), k) > rev,
        !writes_key(w, k) ==> revision_in(apply_writes(m, rev, w), k) == revision_in(m, k),
    decreases w.len(),
{
    if w.len() > 0 {
        let p = w.drop_last();
        lemma_apply_writes_revision(m, rev, p, k);
        if w.last().0 != k {
            if writes_key(w, k) {
                let i = choose|i: int| 0 <= i < w.len() && #[trigger] w[i].0 == k;
                assert(p[i].0 == k);
            }
            if writes_key(p, k) {
                let i = choose|i: int| 0 <= i < p.len() && #[trigger] p[i].0 == k;
                assert(w[i].0 == k);
            }
        } else {
            assert(w[w.len() - 1].0 == k);
        }
    }
}

proof fn lemma_block_fires(
    c: ChangeCursor,
    m: Map<Seq<char>, (PayloadView, u64)>,
    rev: u64,
    w: Seq<(Seq<char>, PayloadView)>,
)
    requires
        c.wf(),
        c.seen() == snapshot(c.deps(), m),
        forall|k: Seq<char>| #[trigger] revision_in(m, k) <= rev,
        rev + w.len() <= u64::MAX,
    ensures
        differs(c.deps(), c.seen(), apply_writes(m, rev, w)) == writes_any(w, c.deps()),
{
    let d = c.deps();
    let n = apply_writes(m, rev, w);
    if differs(d, c.seen(), n) {
        let i = choose|i: int| 0 <= i < d.len() && #[trigger] revision_in(n, d[i]) != c.seen()[i];
        lemma_apply_writes_revision(m, rev, w, d[i]);
        assert(revision_in(m, d[i]) <= rev);
    }
    if writes_any(w, d) {
        let j = choose|j: int| 0 <= j < d.len() && #[trigger] writes_key(w, d[j]);
        lemma_apply_writes_revision(m, rev, w, d[j]);
        assert(revision_in(m, d[j]) <= rev);
        assert(revision_in(n, d[j]) != c.seen()[j]);
    }
}

/// After a settled session takes a batch of writes, a block fires exactly
/// when the batch wrote one of its inputs, whether or not the value changed.
pub proof fn law_fires_iff_batch_writes_dependency(
    before: CustomServer,
    mid: CustomServer,
    w: Seq<(Seq<char>, PayloadView)>,
)
    requires
        before.wf(),
        before.settled(),
        mid.same_but_pool(&before),
        mid.pool() == apply_writes(before.pool(), before.revision(), w),
        before.revision() + w.len() <= u64::MAX,
    ensures
        mid.fires_markdown() == writes_key(w, "markdown"@),
        mid.fires_insert() == writes_key(w, "insert_ui:shiny.action"@),
        mid.fires_remove() == writes_key(w, "remove_ui:shiny.action"@),
        mid.fires_dist1() == writes_any(
            w,
            seq!["n-1:shiny.number"@, "mean-1:shiny.number"@, "sd-1:shiny.number"@],
        ),
        mid.fires_dist2() == writes_any(
            w,
            seq!["n-2:shiny.number"@, "mean-2:shiny.number"@, "sd-2:shiny.number"@],
        ),
        mid.fires_text1() == writes_key(w, "text1"@),
        mid.fires_text2() == writes_key(w, "text2"@),
{
    let m = before.pool();
    let rev = before.revision();
    assert forall|k: Seq<char>| #[trigger] revision_in(m, k) <= rev by {
        before.input.lemma_revisions_bounded(k);
    }
    lemma_block_fires(before.md_block, m, rev, w);
    lemma_block_fires(before.insert_block, m, rev, w);
    lemma_block_fires(before.remove_block, m, rev, w);
    lemma_block_fires(before.dist1_block, m, rev, w);
    lemma_block_fires(before.dist2_block, m, rev, w);
    lemma_block_fires(before.text1_block, m, rev, w);
    lemma_block_fires(before.text2_block, m, rev, w);
    assert(writes_any(w, seq!["markdown"@]) == writes_key(w, "markdown"@)) by {
        if writes_key(w, "markdown"@) {
            assert(seq!["markdown"@][0] == "markdown"@);
        }
    }
    assert(writes_any(w, seq!["insert_ui:shiny.action"@]) == writes_key(w, "insert_ui:shiny.action"@)) by {
        if writes_key(w, "insert_ui:shiny.action"@) {
            assert(seq!["insert_ui:shiny.action"@][0] == "insert_ui:shiny.action"@);
        }
    }
    assert(writes_any(w, seq!["remove_ui:shiny.action"@]) == writes_key(w, "remove_ui:shiny.action"@)) by {
        if writes_key(w, "remove_ui:shiny.action"@) {
            assert(seq!["remove_ui:shiny.action"@][0] == "remove_ui:shiny.action"@);
        }
    }
    assert(writes_any(w, seq!["text1"@]) == writes_key(w, "text1"@)) by {
        if writes_key(w, "text1"@) {
            assert(seq!["text1"@][0] == "text1"@);
        }
    }
    assert(writes_any(w, seq!["text2"@]) == writes_key(w, "text2"@)) by {
        if writes_key(w, "text2"@) {
            assert(seq!["text2"@][0] == "text2"@);
        }
    }
}

impl CustomServer {
    /// In a valid session the inputs are valid, and no input's revision is
    /// later than the last one handed out.
    pub proof fn lemma_revisions_bounded(&self, k: Seq<char>)
        requires
            self.wf(),
        ensures
            self.input.wf(),
            revision_in(self.pool(), k) <= self.revision(),
    {
        self.input.lemma_revisions_bounded(k);
    }

    /// Writing to the inputs of a valid session directly keeps it valid.
    pub proof fn lemma_wf_after_writes(&self, before: &CustomServer)
        requires
            before.wf(),
            self.input.wf(),
            self.same_but_pool(before),
        ensures
            self.wf(),
    {
    }

    /// Every block's observations are no later than the inputs' revisions.
    pub open spec fn cursors_behind(&self) -> bool {
        &&& self.md_block.behind(&self.input)
        &&& self.insert_block.behind(&self.input)
        &&& self.remove_block.behind(&self.input)
        &&& self.dist1_block.behind(&self.input)
        &&& self.dist2_block.behind(&self.input)
        &&& self.text1_block.behind(&self.input)
        &&& self.text2_block.behind(&self.input)
    }
}

/// A settled session's blocks are not ahead of its inputs.
pub proof fn law_settled_cursors_behind(s: CustomServer)
    requires
        s.wf(),
        s.settled(),
    ensures
        s.cursors_behind(),
{
}

/// In a session whose blocks are not ahead of its inputs, each block fires
/// exactly when one of its inputs has a revision later than the one the block
/// recorded when it last ran.
pub proof fn law_block_fires_iff_newer_revision(s: CustomServer)
    requires
        s.wf(),
        s.cursors_behind(),
    ensures
        s.fires_markdown() == written_since(s.md_block.deps(), s.md_block.seen(), s.pool()),
        s.fires_insert() == written_since(s.insert_block.deps(), s.insert_block.seen(), s.pool()),
        s.fires_remove() == written_since(s.remove_block.deps(), s.remove_block.seen(), s.pool()),
        s.fires_dist1() == written_since(s.dist1_block.deps(), s.dist1_block.seen(), s.pool()),
        s.fires_dist2() == written_since(s.dist2_block.deps(), s.dist2_block.seen(), s.pool()),
        s.fires_text1() == written_since(s.text1_block.deps(), s.text1_block.seen(), s.pool()),
        s.fires_text2() == written_since(s.text2_block.deps(), s.text2_block.seen(), s.pool()),
{
    law_fires_iff_written_since(s.md_block, s.input);
    law_fires_iff_written_since(s.insert_block, s.input);
    law_fires_iff_written_since(s.remove_block, s.input);
    law_fires_iff_written_since(s.dist1_block, s.input);
    law_fires_iff_written_since(s.dist2_block, s.input);
    law_fires_iff_written_since(s.text1_block, s.input);
    law_fires_iff_written_since(s.text2_block, s.input);
}

/// Once a session is closed, by a heartbeat timeout or a close, it stays
/// closed and acts on no message; a heartbeat past the timeout closes an
/// active session.
pub proof fn law_closed_is_final(e: EventKind, expired: bool)
    ensures
        next_state(SessionState::Closed, e, expired) == SessionState::Closed,
        !accepts(SessionState::Closed, e),
        next_state(SessionState::Active, EventKind::Heartbeat, true) == SessionState::Closed,
{
}

/// A sample block that fires with a size out of range keeps the sample and
/// queues exactly one error notice before the plot.
pub proof fn law_rejected_size_keeps_sample(s: CustomServer)
    requires
        s.fires_dist1(),
        !in_range(params1(s.pool()).n),
    ensures
        s.dist1_after() == s.dist1(),
        s.draws_mid() == s.draws(),
        s.dist1_piece() == seq![range_notice("n-1:range_error"@), plot_command(s.dist1(), s.dist2())],
        s.dist1_piece()[0] is Notify && s.dist1_piece()[0]->Notify_kind == NotifyKind::Error,
        !(s.dist1_piece()[1] is Notify),
{
    assert(s.dist1_piece() =~= seq![range_notice("n-1:range_error"@), plot_command(s.dist1(), s.dist2())]);
}

/// Two insertions queued one after the other into the same container keep
/// their call order, both at the container's start, so the later one ends up
/// as its first child.
pub proof fn law_inserts_keep_call_order(
    q: Seq<CommandView>,
    selector: Seq<char>,
    a: MarkupView,
    b: MarkupView,
)
    ensures
        ({
            let out = q.push(
                CommandView::InsertUI { selector, position: InsertPosition::AfterBegin, markup: a },
            ).push(
                CommandView::InsertUI { selector, position: InsertPosition::AfterBegin, markup: b },
            );
            &&& out.len() == q.len() + 2
            &&& out[q.len() as int] == CommandView::InsertUI {
                selector,
                position: InsertPosition::AfterBegin,
                markup: a,
            }
            &&& out[q.len() as int + 1] == CommandView::InsertUI {
                selector,
                position: InsertPosition::AfterBegin,
                markup: b,
            }
        }),
{
}

} // verus!
