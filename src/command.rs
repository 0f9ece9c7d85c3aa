use vstd::prelude::*;
use crate::input::Num;

verus! {

/// Where inserted markup goes relative to the target element.
#[derive(Clone, Copy, PartialEq, Eq, Structural, Debug)]
pub enum InsertPosition {
    BeforeBegin,
    AfterBegin,
    BeforeEnd,
    AfterEnd,
}

/// How a notification is presented.
#[derive(Clone, Copy, PartialEq, Eq, Structural, Debug)]
pub enum NotifyKind {
    Info,
    Error,
}

/// Parameters of a numeric sample: its size, mean and standard deviation.
#[derive(Clone, Copy, PartialEq, Eq, Structural, Debug)]
pub struct SampleParams {
    pub n: u64,
    pub mean: Num,
    pub sd: Num,
}

/// A sample the session has drawn and keeps: the parameters it was drawn
/// with and a stamp that tells one drawing from another.
#[derive(Clone, Copy, PartialEq, Eq, Structural, Debug)]
pub struct DistState {
    pub params: SampleParams,
    pub generation: u64,
}

/// One side of a plot: a kept sample, or one drawn afresh for this plot.
#[derive(Clone, Copy, PartialEq, Eq, Structural, Debug)]
pub enum PlotSource {
    Kept(DistState),
    Fresh(SampleParams),
}

/// Content of a UI command: ready HTML, or a plot of two samples that the
/// transport layer draws and renders.
pub enum Markup {
    Html(String),
    Plot(PlotSource, PlotSource),
}

pub ghost enum MarkupView {
    Html(Seq<char>),
    Plot(PlotSource, PlotSource),
}

impl View for Markup {
    type V = MarkupView;

    open spec fn view(&self) -> MarkupView {
        match self {
            Markup::Html(s) => MarkupView::Html(s@),
            Markup::Plot(a, b) => MarkupView::Plot(*a, *b),
        }
    }
}

/// An instruction that mutates the client-rendered interface.
pub enum UICommand {
    Render { target: String, markup: Markup },
    InsertUI { selector: String, position: InsertPosition, markup: Markup },
    RemoveUI { selector: String },
    UpdateInput { target: String, props: Vec<(String, String)> },
    Notify { id: String, html: String, kind: NotifyKind, closeable: bool, actions: Vec<String> },
}

pub ghost enum CommandView {
    Render { target: Seq<char>, markup: MarkupView },
    InsertUI { selector: Seq<char>, position: InsertPosition, markup: MarkupView },
    RemoveUI { selector: Seq<char> },
    UpdateInput { target: Seq<char>, props: Seq<(Seq<char>, Seq<char>)> },
    Notify {
        id: Seq<char>,
        html: Seq<char>,
        kind: NotifyKind,
        closeable: bool,
        actions: Seq<Seq<char>>,
    },
}

impl View for UICommand {
    type V = CommandView;

    open spec fn view(&self) -> CommandView {
        match self {
            UICommand::Render { target, markup } => CommandView::Render {
                target: target@,
                markup: markup@,
            },
            UICommand::InsertUI { selector, position, markup } => CommandView::InsertUI {
                selector: selector@,
                position: *position,
                markup: markup@,
            },
            UICommand::RemoveUI { selector } => CommandView::RemoveUI { selector: selector@ },
            UICommand::UpdateInput { target, props } => CommandView::UpdateInput {
                target: target@,
                props: props@.map_values(|p: (String, String)| (p.0@, p.1@)),
            },
            UICommand::Notify { id, html, kind, closeable, actions } => CommandView::Notify {
                id: id@,
                html: html@,
                kind: *kind,
                closeable: *closeable,
                actions: actions@.map_values(|a: String| a@),
            },
        }
    }
}

/// The commands produced in one evaluation pass, in the order they were
/// produced. The queue only appends; draining hands the whole batch out.
pub struct CommandQueue {
    cmds: Vec<UICommand>,
}

impl View for CommandQueue {
    type V = Seq<CommandView>;

    closed spec fn view(&self) -> Seq<CommandView> {
        self.cmds@.map_values(|c: UICommand| c@)
    }
}

impl CommandQueue {
    pub fn new() -> (r: CommandQueue)
        ensures
            r@ == Seq::<CommandView>::empty(),
    {
        let r = CommandQueue { cmds: Vec::new() };
        assert(r@ =~= Seq::<CommandView>::empty());
        r
    }

    pub fn len(&self) -> (r: usize)
        ensures
            r == self@.len(),
    {
        self.cmds.len()
    }

    /// Appends `c` after every command already queued.
    pub fn push(&mut self, c: UICommand)
        ensures
            final(self)@ == old(self)@.push(c@),
    {
        self.cmds.push(c);
        assert(self@ =~= old(self)@.push(c@));
    }

    /// Hands out the queued commands in order and leaves the queue empty.
    pub fn drain(&mut self) -> (r: Vec<UICommand>)
        ensures
            r@.map_values(|c: UICommand| c@) == old(self)@,
            final(self)@ == Seq::<CommandView>::empty(),
    {
        let mut r: Vec<UICommand> = Vec::new();
        core::mem::swap(&mut self.cmds, &mut r);
        assert(self@ =~= Seq::<CommandView>::empty());
        r
    }

    /// Drops every queued command unsent.
    pub fn discard(&mut self)
        ensures
            final(self)@ == Seq::<CommandView>::empty(),
    {
        self.cmds = Vec::new();
        assert(self@ =~= Seq::<CommandView>::empty());
    }
}

/// Queues `html` as the content of element `target`.
pub fn render_ui(session: &mut CommandQueue, target: &str, html: Markup)
    ensures
        final(session)@ == old(session)@.push(
            CommandView::Render { target: target@, markup: html@ },
        ),
{
    session.push(UICommand::Render { target: target.to_owned(), markup: html });
}

/// Queues the insertion of `html` at `position` relative to `selector`.
pub fn insert_ui(session: &mut CommandQueue, selector: &str, position: InsertPosition, html: Markup)
    ensures
        final(session)@ == old(session)@.push(
            CommandView::InsertUI { selector: selector@, position, markup: html@ },
        ),
{
    session.push(UICommand::InsertUI { selector: selector.to_owned(), position, markup: html });
}

/// Queues the removal of the elements that `selector` matches.
pub fn remove_ui(session: &mut CommandQueue, selector: &str)
    ensures
        final(session)@ == old(session)@.push(CommandView::RemoveUI { selector: selector@ }),
{
    session.push(UICommand::RemoveUI { selector: selector.to_owned() });
}

/// Queues an update of the properties of input `target`.
pub fn update_input(session: &mut CommandQueue, target: &str, props: Vec<(String, String)>)
    ensures
        final(session)@ == old(session)@.push(
            CommandView::UpdateInput {
                target: target@,
                props: props@.map_values(|p: (String, String)| (p.0@, p.1@)),
            },
        ),
{
    session.push(UICommand::UpdateInput { target: target.to_owned(), props });
}

/// Queues a notification.
pub fn show_notification(
    session: &mut CommandQueue,
    id: String,
    html: &str,
    kind: NotifyKind,
    closeable: bool,
)
    ensures
        final(session)@ == old(session)@.push(
            CommandView::Notify {
                id: id@,
                html: html@,
                kind,
                closeable,
                actions: Seq::empty(),
            },
        ),
{
    let actions: Vec<String> = Vec::new();
    proof {
        assert(actions@.map_values(|a: String| a@) =~= Seq::<Seq<char>>::empty());
    }
    session.push(UICommand::Notify { id, html: html.to_owned(), kind, closeable, actions });
}

} // verus!
