//! The widget model: a tree node with a position, a size, a content
//! variant, a style record, a key-binding table, and interaction flags.
//!
//! The concrete widget kinds form a closed set behind one uniform
//! render / event capability surface: static text, a clickable button, a
//! positional container with directional re-focus, a tab strip with cyclic
//! focus, and a linear menu with cyclic selection.

use vstd::prelude::*;

use crate::runtime::{Action, Event, Key, TickStep};
use crate::ui::{
    default_style, merge_style_spec, reset_seq, style_clicked_spec, style_cursor_spec,
    style_prefix_spec, style_selected_spec, Style,
};
use crate::utils::{
    blank_row, closest_component, closest_index_spec, create_frame, frame_view, lines_view,
    place_lines, render_lines_to_frame, split_lines, split_lines_spec, Direction,
};

verus! {

broadcast use vstd::std_specs::vec::group_vec_axioms, vstd::seq::group_seq_axioms;

/// A widget's content: exactly one of nothing, literal text, or an ordered
/// list of child widgets with the index of the focused child.
#[derive(Debug)]
pub enum Children {
    Empty,
    Text(String),
    Children(Vec<Component>, usize),
}

impl Children {
    /// The text payload (empty when the content is not text).
    pub open spec fn text_of(self) -> Seq<char> {
        match self {
            Children::Text(t) => t@,
            _ => Seq::empty(),
        }
    }

    /// The child list (empty when the content is not a child list).
    pub open spec fn nodes_of(self) -> Seq<Component> {
        match self {
            Children::Children(v, _) => v@,
            _ => Seq::empty(),
        }
    }

    /// The focused child's index (0 when the content is not a child list).
    pub open spec fn focus_of(self) -> int {
        match self {
            Children::Children(_, f) => f as int,
            _ => 0,
        }
    }

    /// Whether the widget has no content at all.
    pub fn is_none(&self) -> (r: bool)
        ensures
            r == (*self is Empty),
    {
        match self {
            Children::Empty => true,
            _ => false,
        }
    }

    /// The text payload, or the empty string for other content.
    pub fn get_text(&self) -> (r: String)
        ensures
            r@ == self.text_of(),
    {
        match self {
            Children::Text(t) => {
                let mut out = String::new();
                out.append(t.as_str());
                out
            },
            _ => String::new(),
        }
    }

    /// Replaces the text payload; content of another variant is left as it
    /// is.
    pub fn set_text(&mut self, text: &str)
        ensures
            (*old(self)) is Text ==> final(self)@ == ChildrenSpec::Text(text@),
            !((*old(self)) is Text) ==> *final(self) == *old(self),
    {
        match self {
            Children::Text(t) => {
                let mut out = String::new();
                out.append(text);
                *t = out;
            },
            _ => {},
        }
    }

    /// Replaces the content with the text payload, whatever it was before.
    pub fn set_text_force(&mut self, text: &str)
        ensures
            final(self)@ == ChildrenSpec::Text(text@),
    {
        let mut out = String::new();
        out.append(text);
        *self = Children::Text(out);
    }
}

/// Marker comparing a `Children` value in specifications: variants compare
/// structurally, with the text as its character sequence and the child
/// list as its element sequence (a ghost mirror of the content variant).
pub enum ChildrenSpec {
    Empty,
    Text(Seq<char>),
    Children(Seq<Component>, int),
}

impl View for Children {
    type V = ChildrenSpec;

    open spec fn view(&self) -> ChildrenSpec {
        match *self {
            Children::Empty => ChildrenSpec::Empty,
            Children::Text(t) => ChildrenSpec::Text(t@),
            Children::Children(v, f) => ChildrenSpec::Children(v@, f as int),
        }
    }
}

/// The closed set of widget kinds.
#[derive(Debug, Clone, Copy, PartialEq, Eq, Structural)]
pub enum Kind {
    Text,
    Button,
    Div,
    Tab,
    Menu,
}

/// A node of the widget tree.
///
/// `width` and `height` of 0 mean "inherit from the parent at layout
/// time"; the parent resolves them immediately before rendering the child.
#[derive(Debug)]
pub struct Component {
    pub kind: Kind,
    pub id: String,
    pub class: String,
    pub x: usize,
    pub y: usize,
    pub width: usize,
    pub height: usize,
    pub children: Children,
    pub style: Style,
    pub binds: Vec<(Key, Action)>,
    pub clicked: bool,
    pub toggle: bool,
}

impl Component {
    /// The child list (empty for non-container content).
    pub open spec fn child_nodes(self) -> Seq<Component> {
        self.children.nodes_of()
    }

    /// The focused child's index.
    pub open spec fn focus(self) -> int {
        self.children.focus_of()
    }

    /// The text payload (the label of a button, the content of a text
    /// widget).
    pub open spec fn label(self) -> Seq<char> {
        self.children.text_of()
    }

    /// The data-model invariant: the focus index of every child list in
    /// the tree is a valid index, or 0 for an empty list.
    pub open spec fn wf(self) -> bool
        decreases self, 1int,
    {
        match self.children {
            Children::Children(v, f) => (f < v@.len() || f == 0) && all_wf(v@),
            _ => true,
        }
    }

    /// A blank widget: no content, no bindings, every style layer unset,
    /// position and size 0.
    pub fn new() -> (r: Component)
        ensures
            r.kind == Kind::Text,
            r.id@ == Seq::<char>::empty(),
            r.class@ == Seq::<char>::empty(),
            r.x == 0 && r.y == 0 && r.width == 0 && r.height == 0,
            r.children@ is Empty,
            r.style == default_style(),
            r.binds@ == Seq::<(Key, Action)>::empty(),
            !r.clicked && !r.toggle,
            r.wf(),
    {
        Component {
            kind: Kind::Text,
            id: String::new(),
            class: String::new(),
            x: 0,
            y: 0,
            width: 0,
            height: 0,
            children: Children::Empty,
            style: Style::default(),
            binds: Vec::new(),
            clicked: false,
            toggle: false,
        }
    }
}

/// Every widget in the list satisfies the data-model invariant.
pub open spec fn all_wf(v: Seq<Component>) -> bool
    decreases v, 0int,
{
    if v.len() == 0 {
        true
    } else {
        v[0].wf() && all_wf(v.skip(1))
    }
}

pub proof fn lemma_all_wf_index(v: Seq<Component>, i: int)
    requires
        all_wf(v),
        0 <= i < v.len(),
    ensures
        v[i].wf(),
    decreases v.len(),
{
    if i > 0 {
        lemma_all_wf_index(v.skip(1), i - 1);
    }
}

pub proof fn lemma_all_wf_update(v: Seq<Component>, i: int, w: Component)
    requires
        all_wf(v),
        0 <= i < v.len(),
        w.wf(),
    ensures
        all_wf(v.update(i, w)),
    decreases v.len(),
{
    let u = v.update(i, w);
    assert(u.skip(1) =~= if i == 0 { v.skip(1) } else { v.skip(1).update(i - 1, w) });
    if i > 0 {
        lemma_all_wf_update(v.skip(1), i - 1, w);
    }
}

/// A child dimension of 0 inherits the parent's; anything else stands.
pub open spec fn resolve_dim(own: int, parent: int) -> int {
    if own == 0 {
        parent
    } else {
        own
    }
}

/// `a - b`, stopping at zero.
pub open spec fn sat_sub(a: int, b: int) -> int {
    if a >= b {
        a - b
    } else {
        0
    }
}

/// The first `n` rows joined with line breaks.
pub open spec fn join_upto(rows: Seq<Seq<char>>, n: int) -> Seq<char> {
    join_sep_upto(rows, seq!['\n'], n)
}

/// The first `n` rows joined with an arbitrary separator.
pub open spec fn join_sep_upto(rows: Seq<Seq<char>>, sep: Seq<char>, n: int) -> Seq<char>
    decreases n,
{
    if n <= 0 {
        Seq::empty()
    } else if n == 1 {
        rows[0]
    } else {
        join_sep_upto(rows, sep, n - 1) + sep + rows[n - 1]
    }
}

/// What a button renders: its label in the clicked layer while its toggle
/// flag is on or during a clicked-flash pass, in the base (or hover) layer
/// otherwise.
pub open spec fn button_render_spec(c: Component, state: int) -> Seq<char> {
    if c.clicked || state == 2 {
        style_clicked_spec(c.style) + c.label() + reset_seq()
    } else {
        style_prefix_spec(c.style, state == 1) + c.label() + reset_seq()
    }
}

/// The tab strip's indicator cells: one star per child, the focused one in
/// the clicked layer.
pub open spec fn tab_stars_spec(style: Style, active: bool, focus: int, n: int) -> Seq<char>
    decreases n,
{
    if n <= 0 {
        Seq::empty()
    } else {
        tab_stars_spec(style, active, focus, n - 1) + (if n - 1 == focus {
            style_clicked_spec(style) + "*"@ + reset_seq()
        } else {
            style_prefix_spec(style, active) + "*"@ + reset_seq()
        })
    }
}

/// The menu's rows: the selected item behind a styled cursor in the
/// selection layer, the others indented and unstyled.
pub open spec fn menu_rows_spec(
    children: Seq<Component>,
    focus: int,
    style: Style,
    active: bool,
    n: int,
) -> Seq<Seq<char>>
    decreases n,
{
    if n <= 0 {
        Seq::empty()
    } else {
        menu_rows_spec(children, focus, style, active, n - 1).push(
            if n - 1 == focus {
                style_cursor_spec(style, active) + "> "@ + reset_seq() + style_selected_spec(style)
                    + children[n - 1].label() + reset_seq()
            } else {
                "  "@ + children[n - 1].label()
            },
        )
    }
}

/// What a widget renders, given its interaction state and its resolved
/// size: 0 is idle, 1 is hovered/focused, 2 is the one-shot clicked flash.
pub open spec fn render_spec(c: Component, state: int, w: int, h: int) -> Seq<char>
    decreases c, 1int, 0int,
{
    match c.kind {
        Kind::Text => c.label(),
        Kind::Button => button_render_spec(c, state),
        Kind::Div => match c.children {
            Children::Children(v, f) => {
                let rows = div_frame_spec(v@, f as int, state, w, h, v@.len() as int);
                join_upto(rows, rows.len() as int)
            },
            _ => {
                let rows = Seq::new(h as nat, |i: int| blank_row(w as nat));
                join_upto(rows, rows.len() as int)
            },
        },
        Kind::Tab => match c.children {
            Children::Children(v, f) => {
                let h2 = sat_sub(h, 1);
                let base = Seq::new(h2 as nat, |i: int| blank_row(w as nat));
                let rows = if 0 <= f < v@.len() {
                    let ch = v@[f as int];
                    let lines = split_lines_spec(
                        render_spec(
                            ch,
                            1,
                            resolve_dim(ch.width as int, w),
                            resolve_dim(ch.height as int, h),
                        ),
                    );
                    place_lines(base, lines, ch.x as int, ch.y as int, lines.len() as int)
                } else {
                    base
                };
                blank_row(sat_sub(w / 2, v@.len() as int) as nat) + tab_stars_spec(
                    c.style,
                    state == 1,
                    f as int,
                    v@.len() as int,
                ) + seq!['\n'] + join_upto(rows, rows.len() as int)
            },
            _ => {
                let h2 = sat_sub(h, 1);
                let rows = Seq::new(h2 as nat, |i: int| blank_row(w as nat));
                blank_row(sat_sub(w / 2, 0) as nat) + seq!['\n'] + join_upto(
                    rows,
                    rows.len() as int,
                )
            },
        },
        Kind::Menu => {
            let rows = menu_rows_spec(
                c.child_nodes(),
                c.focus(),
                c.style,
                state == 1,
                c.child_nodes().len() as int,
            );
            join_sep_upto(
                rows,
                style_prefix_spec(c.style, state == 1) + "\n"@ + reset_seq(),
                rows.len() as int,
            )
        },
    }
}

/// The frame of a container after its first `n` children have rendered
/// into it, each with its inherited size resolved, the focused one with
/// the container's own state and the others idle.
pub open spec fn div_frame_spec(
    children: Seq<Component>,
    focus: int,
    state: int,
    w: int,
    h: int,
    n: int,
) -> Seq<Seq<char>>
    decreases children, 0int, n,
{
    if n <= 0 || children.len() < n {
        Seq::new(h as nat, |i: int| blank_row(w as nat))
    } else {
        let fr = div_frame_spec(children, focus, state, w, h, n - 1);
        let ch = children[n - 1];
        let st = if n - 1 == focus {
            state
        } else {
            0
        };
        let lines = split_lines_spec(
            render_spec(ch, st, resolve_dim(ch.width as int, w), resolve_dim(ch.height as int, h)),
        );
        place_lines(fr, lines, ch.x as int, ch.y as int, lines.len() as int)
    }
}

/// Joins rows with the given separator.
fn join_sep(rows: &Vec<String>, sep: &str) -> (r: String)
    ensures
        r@ == join_sep_upto(lines_view(rows@), sep@, rows@.len() as int),
{
    let mut out = String::new();
    let mut i: usize = 0;
    while i < rows.len()
        invariant
            i <= rows@.len(),
            out@ == join_sep_upto(lines_view(rows@), sep@, i as int),
        decreases rows@.len() - i,
    {
        let ghost before = out@;
        if i > 0 {
            out.append(sep);
        }
        out.append(rows[i].as_str());
        i += 1;
        proof {
            let lv = lines_view(rows@);
            if i == 1 {
                assert(before =~= Seq::<char>::empty());
                assert(out@ =~= lv[0]);
            } else {
                assert((before + sep@) + lv[i - 1] =~= before + sep@ + lv[i - 1]);
            }
        }
    }
    out
}

impl Component {
    /// What this widget paints for one pass, at its own recorded size.
    pub fn render(&self, state: usize) -> (r: String)
        ensures
            r@ == render_spec(*self, state as int, self.width as int, self.height as int),
    {
        self.render_sized(state, self.width, self.height)
    }

    /// What this widget paints for one pass, at the size its parent
    /// resolved for it.
    #[verifier::loop_isolation(false)]
    #[verifier::rlimit(80)]
    #[verifier::spinoff_prover]
    pub fn render_sized(&self, state: usize, w: usize, h: usize) -> (r: String)
        ensures
            r@ == render_spec(*self, state as int, w as int, h as int),
        decreases *self,
    {
        proof {
            reveal_strlit("\n");
            assert("\n"@ =~= seq!['\n']);
        }
        match self.kind {
            Kind::Text => self.children.get_text(),
            Kind::Button => {
                let label = self.children.get_text();
                if self.clicked || state == 2 {
                    self.style.write_clicked(label.as_str())
                } else {
                    self.style.write(label.as_str(), state == 1)
                }
            },
            Kind::Div => {
                match &self.children {
                    Children::Children(v, focus) => {
                        let ghost f = *focus as int;
                        let mut frame = create_frame(w, h);
                        let mut i: usize = 0;
                        proof {
                            assert(frame_view(frame@) =~~= div_frame_spec(
                                v@,
                                f,
                                state as int,
                                w as int,
                                h as int,
                                0,
                            ));
                        }
                        while i < v.len()
                            invariant
                                i <= v@.len(),
                                frame_view(frame@) == div_frame_spec(
                                    v@,
                                    f,
                                    state as int,
                                    w as int,
                                    h as int,
                                    i as int,
                                ),
                            decreases v@.len() - i,
                        {
                            proof {
                                assert(self.children == Children::Children(*v, *focus));
                                assert(decreases_to!(*self => self.children));
                                assert(decreases_to!(Children::Children(*v, *focus) => *v));
                                assert(decreases_to!(*v => v@));
                                assert(decreases_to!(v@ => v@[i as int]));
                            }
                            let child = &v[i];
                            let st: usize = if i == *focus {
                                state
                            } else {
                                0
                            };
                            let rw: usize = if child.width == 0 {
                                w
                            } else {
                                child.width
                            };
                            let rh: usize = if child.height == 0 {
                                h
                            } else {
                                child.height
                            };
                            let rendered = child.render_sized(st, rw, rh);
                            let lines = split_lines(rendered.as_str());
                            render_lines_to_frame(&mut frame, &lines, child.x, child.y);
                            i += 1;
                        }
                        join_sep(&frame, "\n")
                    },
                    _ => {
                        let frame = create_frame(w, h);
                        join_sep(&frame, "\n")
                    },
                }
            },
            Kind::Tab => {
                let h2: usize = if h >= 1 {
                    h - 1
                } else {
                    0
                };
                match &self.children {
                    Children::Children(v, focus) => {
                        let mut frame = create_frame(w, h2);
                        if *focus < v.len() {
                            proof {
                                assert(self.children == Children::Children(*v, *focus));
                                assert(decreases_to!(*self => self.children));
                                assert(decreases_to!(Children::Children(*v, *focus) => *v));
                                assert(decreases_to!(*v => v@));
                                assert(decreases_to!(v@ => v@[*focus as int]));
                            }
                            let child = &v[*focus];
                            let rw: usize = if child.width == 0 {
                                w
                            } else {
                                child.width
                            };
                            let rh: usize = if child.height == 0 {
                                h
                            } else {
                                child.height
                            };
                            let rendered = child.render_sized(1, rw, rh);
                            let lines = split_lines(rendered.as_str());
                            render_lines_to_frame(&mut frame, &lines, child.x, child.y);
                        }
                        let pad: usize = if w / 2 >= v.len() {
                            w / 2 - v.len()
                        } else {
                            0
                        };
                        let mut out = String::new();
                        let mut j: usize = 0;
                        while j < pad
                            invariant
                                j <= pad,
                                out@ == blank_row(j as nat),
                            decreases pad - j,
                        {
                            out.push(' ');
                            j += 1;
                            proof {
                                assert(out@ =~= blank_row(j as nat));
                            }
                        }
                        let mut i: usize = 0;
                        while i < v.len()
                            invariant
                                i <= v@.len(),
                                out@ == blank_row(pad as nat) + tab_stars_spec(
                                    self.style,
                                    state == 1,
                                    *focus as int,
                                    i as int,
                                ),
                            decreases v@.len() - i,
                        {
                            let ghost before = out@;
                            let star = if i == *focus {
                                self.style.write_clicked("*")
                            } else {
                                self.style.write("*", state == 1)
                            };
                            out.append(star.as_str());
                            i += 1;
                            proof {
                                assert(before + star@ =~= blank_row(pad as nat) + tab_stars_spec(
                                    self.style,
                                    state == 1,
                                    *focus as int,
                                    i as int,
                                ));
                            }
                        }
                        out.append("\n");
                        let joined = join_sep(&frame, "\n");
                        out.append(joined.as_str());
                        proof {
                            assert(out@ =~= render_spec(*self, state as int, w as int, h as int));
                        }
                        out
                    },
                    _ => {
                        let frame = create_frame(w, h2);
                        let pad: usize = w / 2;
                        let mut out = String::new();
                        let mut j: usize = 0;
                        while j < pad
                            invariant
                                j <= pad,
                                out@ == blank_row(j as nat),
                            decreases pad - j,
                        {
                            out.push(' ');
                            j += 1;
                            proof {
                                assert(out@ =~= blank_row(j as nat));
                            }
                        }
                        out.append("\n");
                        let joined = join_sep(&frame, "\n");
                        out.append(joined.as_str());
                        proof {
                            assert(out@ =~= render_spec(*self, state as int, w as int, h as int));
                        }
                        out
                    },
                }
            },
            Kind::Menu => {
                match &self.children {
                    Children::Children(v, focus) => {
                        let mut rows: Vec<String> = Vec::new();
                        let mut i: usize = 0;
                        proof {
                            assert(lines_view(rows@) =~~= menu_rows_spec(
                                v@,
                                *focus as int,
                                self.style,
                                state == 1,
                                0,
                            ));
                        }
                        while i < v.len()
                            invariant
                                i <= v@.len(),
                                lines_view(rows@) == menu_rows_spec(
                                    v@,
                                    *focus as int,
                                    self.style,
                                    state == 1,
                                    i as int,
                                ),
                            decreases v@.len() - i,
                        {
                            let label = v[i].children.get_text();
                            if i == *focus {
                                let mut row = self.style.write_cursor("> ", state == 1);
                                let sel = self.style.write_selected(label.as_str());
                                row.append(sel.as_str());
                                rows.push(row);
                            } else {
                                let mut row = String::from_str("  ");
                                row.append(label.as_str());
                                rows.push(row);
                            }
                            i += 1;
                            proof {
                                assert(lines_view(rows@) =~~= menu_rows_spec(
                                    v@,
                                    *focus as int,
                                    self.style,
                                    state == 1,
                                    i as int,
                                ));
                            }
                        }
                        let sep = self.style.write("\n", state == 1);
                        join_sep(&rows, sep.as_str())
                    },
                    _ => {
                        let rows: Vec<String> = Vec::new();
                        let sep = self.style.write("\n", state == 1);
                        let r = join_sep(&rows, sep.as_str());
                        proof {
                            assert(menu_rows_spec(
                                self.child_nodes(),
                                self.focus(),
                                self.style,
                                state == 1,
                                self.child_nodes().len() as int,
                            ) =~~= lines_view(rows@));
                        }
                        r
                    },
                }
            },
        }
    }
}

/// Renders a widget and overlays its lines onto the frame at the widget's
/// own position, row `widget.y + line index`; rows past the frame's height
/// are silently dropped — the defined clipping policy.
pub fn render_to_frame(state: usize, frame: &mut Vec<String>, element: &Component)
    ensures
        ({
            let lines = split_lines_spec(
                render_spec(
                    *element,
                    state as int,
                    element.width as int,
                    element.height as int,
                ),
            );
            frame_view(final(frame)@) == place_lines(
                frame_view(old(frame)@),
                lines,
                element.x as int,
                element.y as int,
                lines.len() as int,
            )
        }),
        final(frame)@.len() == old(frame)@.len(),
{
    let rendered = element.render(state);
    let lines = split_lines(rendered.as_str());
    render_lines_to_frame(frame, &lines, element.x, element.y);
}

/// The structural result a dispatched event hands back to the parent:
/// nothing, a schedule of transient transitions for the runtime, or a
/// request to splice a replacement widget into the tree.
#[derive(Debug)]
pub enum EventResponse {
    Nothing,
    Ticks(Vec<TickStep>),
    ReplaceSelf(Box<Component>),
    ReplaceById(String, Box<Component>),
}

/// The ghost mirror of an event response.
pub enum ResponseSpec {
    Nothing,
    Ticks(Seq<TickStep>),
    ReplaceSelf(Component),
    ReplaceById(Seq<char>, Component),
}

impl View for EventResponse {
    type V = ResponseSpec;

    open spec fn view(&self) -> ResponseSpec {
        match self {
            EventResponse::Nothing => ResponseSpec::Nothing,
            EventResponse::Ticks(v) => ResponseSpec::Ticks(v@),
            EventResponse::ReplaceSelf(b) => ResponseSpec::ReplaceSelf(**b),
            EventResponse::ReplaceById(id, b) => ResponseSpec::ReplaceById(id@, **b),
        }
    }
}

/// What dispatching one event produced: the structural response, and
/// whether the receiving widget's user callback fired (the runtime invokes
/// the stored callback on a private clone when it did).
#[derive(Debug)]
pub struct EventOutcome {
    pub response: EventResponse,
    pub fired: bool,
}

/// The transient schedule a button activation hands to the runtime: enter
/// the clicked flash at once, revert to idle after the declared delay.
pub open spec fn button_ticks_spec() -> Seq<TickStep> {
    seq![TickStep { state: 2, delay: 1 }, TickStep { state: 0, delay: 100 }]
}

/// The first binding for the key, scanned in table order.
pub open spec fn bind_action_spec(binds: Seq<(Key, Action)>, k: Key) -> Option<Action>
    decreases binds.len(),
{
    if binds.len() == 0 {
        Option::None
    } else if binds[0].0 == k {
        Option::Some(binds[0].1)
    } else {
        bind_action_spec(binds.skip(1), k)
    }
}

fn bind_action(binds: &Vec<(Key, Action)>, k: Key) -> (r: Option<Action>)
    ensures
        r == bind_action_spec(binds@, k),
{
    let mut i: usize = 0;
    proof {
        assert(binds@.skip(0) == binds@);
    }
    while i < binds.len()
        invariant
            i <= binds@.len(),
            bind_action_spec(binds@, k) == bind_action_spec(binds@.skip(i as int), k),
        decreases binds@.len() - i,
    {
        let pair = binds[i];
        proof {
            assert(binds@.skip(i as int)[0] == binds@[i as int]);
            assert(binds@.skip(i as int).skip(1) =~= binds@.skip(i as int + 1));
        }
        if pair.0 == k {
            return Some(pair.1);
        }
        i += 1;
    }
    None
}

/// The direction a focus action moves in, if it is one.
pub open spec fn action_direction(a: Action) -> Option<Direction> {
    match a {
        Action::FocusUp => Option::Some(Direction::Up),
        Action::FocusDown => Option::Some(Direction::Down),
        Action::FocusLeft => Option::Some(Direction::Left),
        Action::FocusRight => Option::Some(Direction::Right),
        _ => Option::None,
    }
}

/// The next focus after a directional move, unchanged when the current
/// index is out of range.
pub open spec fn nav_focus_spec(v: Seq<Component>, f: int, d: Direction) -> int {
    if 0 <= f < v.len() {
        closest_index_spec(v, f, d)
    } else {
        f
    }
}

/// The next focus for a forward cycle: one further, wrapping to 0.
pub open spec fn cycle_next(f: int, len: int) -> int {
    if f + 1 < len {
        f + 1
    } else {
        0
    }
}

/// The next focus for a backward cycle: one back, wrapping to the end.
pub open spec fn cycle_prev(f: int, len: int) -> int {
    if f > 0 {
        f - 1
    } else if len > 0 {
        len - 1
    } else {
        0
    }
}

/// Every field but the content equal.
pub open spec fn same_shell(pre: Component, post: Component) -> bool {
    &&& post.kind == pre.kind
    &&& post.id == pre.id
    &&& post.class == pre.class
    &&& post.x == pre.x
    &&& post.y == pre.y
    &&& post.width == pre.width
    &&& post.height == pre.height
    &&& post.style == pre.style
    &&& post.binds == pre.binds
    &&& post.clicked == pre.clicked
    &&& post.toggle == pre.toggle
}

/// Index of the first child whose identifier matches (`nodes.len()` when
/// none does).
pub open spec fn first_id_index(nodes: Seq<Component>, id: Seq<char>) -> int
    decreases nodes.len(),
{
    if nodes.len() == 0 {
        0
    } else if nodes[0].id@ == id {
        0
    } else {
        1 + first_id_index(nodes.skip(1), id)
    }
}

/// The child list after the first identifier match has been replaced
/// (unchanged when nothing matches).
pub open spec fn replace_by_id_spec(
    nodes: Seq<Component>,
    id: Seq<char>,
    w: Component,
) -> Seq<Component> {
    let i = first_id_index(nodes, id);
    if i < nodes.len() {
        nodes.update(i, w)
    } else {
        nodes
    }
}

/// An unchanged widget, no structural response, no callback.
pub open spec fn event_noop(pre: Component, post: Component, resp: ResponseSpec, fired: bool) -> bool {
    post == pre && resp is Nothing && !fired
}

/// How a container's event forwarding relates its state before and after:
/// the focused child handled the event and its updated self stands in its
/// place, every sibling unchanged; the child's response and callback
/// activity travel up unchanged, for the runtime to act on.
pub open spec fn forward_rel(
    pre: Component,
    v: Seq<Component>,
    f: int,
    e: Event,
    post: Component,
    resp: ResponseSpec,
    fired: bool,
) -> bool
    decreases v, 1int,
{
    if 0 <= f < v.len() {
        &&& same_shell(pre, post)
        &&& post.children@ == ChildrenSpec::Children(v.update(f, post.child_nodes()[f]), f)
        &&& event_rel(v[f], e, post.child_nodes()[f], resp, fired)
    } else {
        event_noop(pre, post, resp, fired)
    }
}

/// How one dispatched event relates a widget's state before and after,
/// together with the response and callback activity it produced.
///
/// Text ignores events. A button's bound activation key flips its toggle
/// flag and fires its callback, or — in flash mode — schedules the
/// clicked-then-idle transient sequence. A container first matches its own
/// bindings (directional re-focus for a div, cyclic focus for a tab strip)
/// and only otherwise forwards the event to its focused child. A menu
/// cycles its selection on Up/Down and fires its callback on Enter.
pub open spec fn event_rel(
    pre: Component,
    e: Event,
    post: Component,
    resp: ResponseSpec,
    fired: bool,
) -> bool
    decreases pre, 2int,
{
    match pre.kind {
        Kind::Text => event_noop(pre, post, resp, fired),
        Kind::Button => match e {
            Event::Key(k) => {
                if bind_action_spec(pre.binds@, k) == Option::<Action>::Some(Action::Click) {
                    if pre.toggle {
                        &&& post == (Component { clicked: !pre.clicked, ..pre })
                        &&& resp is Nothing
                        &&& fired
                    } else {
                        &&& post == pre
                        &&& resp == ResponseSpec::Ticks(button_ticks_spec())
                        &&& !fired
                    }
                } else {
                    event_noop(pre, post, resp, fired)
                }
            },
            _ => event_noop(pre, post, resp, fired),
        },
        Kind::Div => match pre.children {
            Children::Children(v, f) => match e {
                Event::Key(k) => match bind_action_spec(pre.binds@, k) {
                    Option::Some(a) => match action_direction(a) {
                        Option::Some(d) => {
                            &&& same_shell(pre, post)
                            &&& post.children@ == ChildrenSpec::Children(
                                v@,
                                nav_focus_spec(v@, f as int, d),
                            )
                            &&& resp is Nothing
                            &&& !fired
                        },
                        Option::None => event_noop(pre, post, resp, fired),
                    },
                    Option::None => forward_rel(pre, v@, f as int, e, post, resp, fired),
                },
                _ => event_noop(pre, post, resp, fired),
            },
            _ => event_noop(pre, post, resp, fired),
        },
        Kind::Tab => match pre.children {
            Children::Children(v, f) => match e {
                Event::Key(k) => match bind_action_spec(pre.binds@, k) {
                    Option::Some(Action::NextTab) => {
                        &&& same_shell(pre, post)
                        &&& post.children@ == ChildrenSpec::Children(
                            v@,
                            cycle_next(f as int, v@.len() as int),
                        )
                        &&& resp is Nothing
                        &&& !fired
                    },
                    Option::Some(Action::PreviousTab) => {
                        &&& same_shell(pre, post)
                        &&& post.children@ == ChildrenSpec::Children(
                            v@,
                            cycle_prev(f as int, v@.len() as int),
                        )
                        &&& resp is Nothing
                        &&& !fired
                    },
                    Option::Some(_) => event_noop(pre, post, resp, fired),
                    Option::None => forward_rel(pre, v@, f as int, e, post, resp, fired),
                },
                _ => event_noop(pre, post, resp, fired),
            },
            _ => event_noop(pre, post, resp, fired),
        },
        Kind::Menu => match pre.children {
            Children::Children(v, f) => match e {
                Event::Key(k) => {
                    if k == Key::Down {
                        &&& same_shell(pre, post)
                        &&& post.children@ == ChildrenSpec::Children(
                            v@,
                            cycle_next(f as int, v@.len() as int),
                        )
                        &&& resp is Nothing
                        &&& !fired
                    } else if k == Key::Up {
                        &&& same_shell(pre, post)
                        &&& post.children@ == ChildrenSpec::Children(
                            v@,
                            cycle_prev(f as int, v@.len() as int),
                        )
                        &&& resp is Nothing
                        &&& !fired
                    } else if k == Key::Enter {
                        post == pre && resp is Nothing && fired
                    } else {
                        event_noop(pre, post, resp, fired)
                    }
                },
                _ => event_noop(pre, post, resp, fired),
            },
            _ => event_noop(pre, post, resp, fired),
        },
    }
}

/// How one scheduled tick relates a widget's state before and after: a
/// button enters its clicked state at index 0 and reverts at index 1,
/// firing its callback both times; containers forward the tick to their
/// focused child; everything else ignores it.
pub open spec fn tick_rel(pre: Component, i: int, post: Component, fired: bool) -> bool
    decreases pre, 1int,
{
    match pre.kind {
        Kind::Button => {
            if i == 0 {
                post == (Component { clicked: true, ..pre }) && fired
            } else if i == 1 {
                post == (Component { clicked: false, ..pre }) && fired
            } else {
                post == pre && !fired
            }
        },
        Kind::Div | Kind::Tab => match pre.children {
            Children::Children(v, f) => {
                if 0 <= (f as int) < v@.len() {
                    &&& same_shell(pre, post)
                    &&& post.children@ == ChildrenSpec::Children(
                        v@.update(f as int, post.child_nodes()[f as int]),
                        f as int,
                    )
                    &&& tick_rel(v@[f as int], i, post.child_nodes()[f as int], fired)
                } else {
                    post == pre && !fired
                }
            },
            _ => post == pre && !fired,
        },
        _ => post == pre && !fired,
    }
}

/// A static text widget: renders its text, ignores events.
pub fn text() -> (r: Component)
    ensures
        r.kind == Kind::Text,
        r.children@ is Empty,
        r.style == default_style(),
        r.binds@ == Seq::<(Key, Action)>::empty(),
        r.x == 0 && r.y == 0 && r.width == 0 && r.height == 0,
        !r.clicked && !r.toggle,
        r.wf(),
{
    Component::new()
}

/// A clickable button: Enter activates it.
pub fn button() -> (r: Component)
    ensures
        r.kind == Kind::Button,
        r.children@ is Empty,
        r.style == default_style(),
        r.binds@ == seq![(Key::Enter, Action::Click)],
        r.x == 0 && r.y == 0 && r.width == 0 && r.height == 0,
        !r.clicked && !r.toggle,
        r.wf(),
{
    let mut c = Component::new();
    c.kind = Kind::Button;
    let mut binds: Vec<(Key, Action)> = Vec::new();
    binds.push((Key::Enter, Action::Click));
    c.binds = binds;
    proof {
        assert(c.binds@ =~= seq![(Key::Enter, Action::Click)]);
    }
    c
}

/// A positional container: arrow keys re-focus among the children by
/// geometric search, other keys go to the focused child.
pub fn div() -> (r: Component)
    ensures
        r.kind == Kind::Div,
        r.children@ is Empty,
        r.style == default_style(),
        r.binds@ == seq![
            (Key::Up, Action::FocusUp),
            (Key::Down, Action::FocusDown),
            (Key::Left, Action::FocusLeft),
            (Key::Right, Action::FocusRight),
        ],
        r.x == 0 && r.y == 0 && r.width == 0 && r.height == 0,
        !r.clicked && !r.toggle,
        r.wf(),
{
    let mut c = Component::new();
    c.kind = Kind::Div;
    let mut binds: Vec<(Key, Action)> = Vec::new();
    binds.push((Key::Up, Action::FocusUp));
    binds.push((Key::Down, Action::FocusDown));
    binds.push((Key::Left, Action::FocusLeft));
    binds.push((Key::Right, Action::FocusRight));
    c.binds = binds;
    proof {
        assert(c.binds@ =~= seq![
            (Key::Up, Action::FocusUp),
            (Key::Down, Action::FocusDown),
            (Key::Left, Action::FocusLeft),
            (Key::Right, Action::FocusRight),
        ]);
    }
    c
}

/// A tab strip: Tab and Shift-Tab cycle the focused child, and an
/// indicator row marks the current tab.
pub fn tab() -> (r: Component)
    ensures
        r.kind == Kind::Tab,
        r.children@ is Empty,
        r.style == (Style { clicked_fg: crate::ui::Color::Red, ..default_style() }),
        r.binds@ == seq![(Key::Tab, Action::NextTab), (Key::ShiftTab, Action::PreviousTab)],
        r.x == 0 && r.y == 0 && r.width == 0 && r.height == 0,
        !r.clicked && !r.toggle,
        r.wf(),
{
    let mut c = Component::new();
    c.kind = Kind::Tab;
    c.style.clicked_fg = crate::ui::Color::Red;
    let mut binds: Vec<(Key, Action)> = Vec::new();
    binds.push((Key::Tab, Action::NextTab));
    binds.push((Key::ShiftTab, Action::PreviousTab));
    c.binds = binds;
    proof {
        assert(c.binds@ =~= seq![(Key::Tab, Action::NextTab), (Key::ShiftTab, Action::PreviousTab)]);
    }
    c
}

/// A linear menu: Up and Down cycle the selection, Enter activates it.
pub fn menu() -> (r: Component)
    ensures
        r.kind == Kind::Menu,
        r.children@ is Empty,
        r.style == (Style {
            selected_bg: crate::ui::Color::Magenta,
            selected_fg: crate::ui::Color::Black,
            cursor_fg: crate::ui::Color::Magenta,
            ..default_style()
        }),
        r.binds@ == Seq::<(Key, Action)>::empty(),
        r.x == 0 && r.y == 0 && r.width == 0 && r.height == 0,
        !r.clicked && !r.toggle,
        r.wf(),
{
    let mut c = Component::new();
    c.kind = Kind::Menu;
    c.style.selected_bg = crate::ui::Color::Magenta;
    c.style.selected_fg = crate::ui::Color::Black;
    c.style.cursor_fg = crate::ui::Color::Magenta;
    c
}

/// Character-for-character string equality.
pub fn str_eq(a: &str, b: &str) -> (r: bool)
    ensures
        r == (a@ == b@),
{
    let na: usize = a.unicode_len();
    let nb: usize = b.unicode_len();
    if na != nb {
        return false;
    }
    let mut i: usize = 0;
    while i < na
        invariant
            i <= na,
            na == a@.len(),
            na == b@.len(),
            forall|t: int| 0 <= t < i ==> a@[t] == b@[t],
        decreases na - i,
    {
        if a.get_char(i) != b.get_char(i) {
            return false;
        }
        i += 1;
    }
    proof {
        assert(a@ =~= b@);
    }
    true
}

fn action_dir(a: Action) -> (r: Option<Direction>)
    ensures
        r == action_direction(a),
{
    match a {
        Action::FocusUp => Some(Direction::Up),
        Action::FocusDown => Some(Direction::Down),
        Action::FocusLeft => Some(Direction::Left),
        Action::FocusRight => Some(Direction::Right),
        _ => None,
    }
}

proof fn lemma_first_id_unfold(nodes: Seq<Component>, id: Seq<char>, i: int)
    requires
        0 <= i < nodes.len(),
    ensures
        nodes.skip(i)[0] == nodes[i],
        nodes[i].id@ == id ==> first_id_index(nodes.skip(i), id) == 0,
        nodes[i].id@ != id ==> first_id_index(nodes.skip(i), id) == 1 + first_id_index(
            nodes.skip(i + 1),
            id,
        ),
{
    assert(nodes.skip(i).skip(1) =~= nodes.skip(i + 1));
}

/// Index of the first child whose identifier matches, if any.
fn index_of_id(v: &Vec<Component>, id: &str) -> (r: Option<usize>)
    ensures
        match r {
            Some(ix) => ix as int == first_id_index(v@, id@) && (ix as int) < v@.len(),
            None => first_id_index(v@, id@) >= v@.len(),
        },
{
    let mut i: usize = 0;
    proof {
        assert(v@.skip(0) == v@);
    }
    while i < v.len()
        invariant
            i <= v@.len(),
            first_id_index(v@, id@) == i + first_id_index(v@.skip(i as int), id@),
        decreases v@.len() - i,
    {
        proof {
            lemma_first_id_unfold(v@, id@, i as int);
        }
        if str_eq(v[i].id.as_str(), id) {
            return Some(i);
        }
        i += 1;
    }
    proof {
        assert(v@.skip(i as int).len() == 0);
    }
    None
}

impl Component {
    /// Dispatches one event to this widget, and on along the focused path
    /// where the widget's own bindings do not claim it; hands back the
    /// updated widget together with what the dispatch produced.
    #[verifier::loop_isolation(false)]
    #[verifier::rlimit(60)]
    #[verifier::spinoff_prover]
    pub fn event(self, e: &Event) -> (r: (Component, EventOutcome))
        ensures
            event_rel(self, *e, r.0, r.1.response@, r.1.fired),
        decreases self,
    {
        let ghost pre = self;
        match self.kind {
            Kind::Text => (
                self,
                EventOutcome { response: EventResponse::Nothing, fired: false },
            ),
            Kind::Button => match e {
                Event::Key(k) => match bind_action(&self.binds, *k) {
                    Some(Action::Click) => {
                        if self.toggle {
                            let mut s = self;
                            s.clicked = !s.clicked;
                            proof {
                                assert(s == (Component { clicked: !pre.clicked, ..pre }));
                            }
                            (s, EventOutcome { response: EventResponse::Nothing, fired: true })
                        } else {
                            let mut steps: Vec<TickStep> = Vec::new();
                            steps.push(TickStep { state: 2, delay: 1 });
                            steps.push(TickStep { state: 0, delay: 100 });
                            proof {
                                assert(steps@ =~= button_ticks_spec());
                            }
                            (
                                self,
                                EventOutcome { response: EventResponse::Ticks(steps), fired: false },
                            )
                        }
                    },
                    _ => (self, EventOutcome { response: EventResponse::Nothing, fired: false }),
                },
                _ => (self, EventOutcome { response: EventResponse::Nothing, fired: false }),
            },
            Kind::Div | Kind::Tab => {
                let is_div = match self.kind {
                    Kind::Div => true,
                    _ => false,
                };
                let Component { kind, id, class, x, y, width, height, children, style, binds, clicked, toggle } =
                    self;
                match children {
                    Children::Children(mut v, f) => {
                        let ghost v0 = v@;
                        match e {
                            Event::Key(k) => match bind_action(&binds, *k) {
                                Some(a) => {
                                    let mut nf: usize = f;
                                    if is_div {
                                        if let Some(d) = action_dir(a) {
                                            if f < v.len() {
                                                nf = closest_component(&v, f, d);
                                            }
                                        }
                                    } else {
                                        match a {
                                            Action::NextTab => {
                                                nf = if v.len() > 0 && f < v.len() - 1 {
                                                    f + 1
                                                } else {
                                                    0
                                                };
                                            },
                                            Action::PreviousTab => {
                                                nf = if f > 0 {
                                                    f - 1
                                                } else if v.len() > 0 {
                                                    v.len() - 1
                                                } else {
                                                    0
                                                };
                                            },
                                            _ => {},
                                        }
                                    }
                                    let post = Component {
                                        kind,
                                        id,
                                        class,
                                        x,
                                        y,
                                        width,
                                        height,
                                        children: Children::Children(v, nf),
                                        style,
                                        binds,
                                        clicked,
                                        toggle,
                                    };
                                    proof {
                                        assert(same_shell(pre, post));
                                        assert(post.children@ == ChildrenSpec::Children(
                                            v0,
                                            nf as int,
                                        ));
                                        if nf == f {
                                            assert(post == pre);
                                        }
                                    }
                                    (
                                        post,
                                        EventOutcome {
                                            response: EventResponse::Nothing,
                                            fired: false,
                                        },
                                    )
                                },
                                None => {
                                    if f < v.len() {
                                        proof {
                                            assert(pre.children == Children::Children(v, f));
                                            assert(decreases_to!(pre => pre.children));
                                            assert(decreases_to!(Children::Children(v, f) => v));
                                            assert(decreases_to!(v => v@));
                                            assert(decreases_to!(v@ => v@[f as int]));
                                        }
                                        let child = v.remove(f);
                                        let (child2, out) = child.event(e);
                                        v.insert(f, child2);
                                        proof {
                                            assert(v@ =~= v0.update(f as int, child2));
                                        }
                                        let post = Component {
                                            kind,
                                            id,
                                            class,
                                            x,
                                            y,
                                            width,
                                            height,
                                            children: Children::Children(v, f),
                                            style,
                                            binds,
                                            clicked,
                                            toggle,
                                        };
                                        proof {
                                            assert(post.child_nodes() == v0.update(
                                                f as int,
                                                child2,
                                            ));
                                            assert(post.child_nodes()[f as int] == child2);
                                            assert(v0.update(f as int, child2) =~= v0.update(
                                                f as int,
                                                post.child_nodes()[f as int],
                                            ));
                                            assert(event_rel(v0[f as int], *e, child2,
                                                out.response@, out.fired));
                                            assert(same_shell(pre, post));
                                        }
                                        (post, out)
                                    } else {
                                        let post = Component {
                                            kind,
                                            id,
                                            class,
                                            x,
                                            y,
                                            width,
                                            height,
                                            children: Children::Children(v, f),
                                            style,
                                            binds,
                                            clicked,
                                            toggle,
                                        };
                                        proof {
                                            assert(post == pre);
                                        }
                                        (
                                            post,
                                            EventOutcome {
                                                response: EventResponse::Nothing,
                                                fired: false,
                                            },
                                        )
                                    }
                                },
                            },
                            _ => {
                                let post = Component {
                                    kind,
                                    id,
                                    class,
                                    x,
                                    y,
                                    width,
                                    height,
                                    children: Children::Children(v, f),
                                    style,
                                    binds,
                                    clicked,
                                    toggle,
                                };
                                proof {
                                    assert(post == pre);
                                }
                                (
                                    post,
                                    EventOutcome { response: EventResponse::Nothing, fired: false },
                                )
                            },
                        }
                    },
                    other => {
                        let post = Component {
                            kind,
                            id,
                            class,
                            x,
                            y,
                            width,
                            height,
                            children: other,
                            style,
                            binds,
                            clicked,
                            toggle,
                        };
                        proof {
                            assert(post == pre);
                        }
                        (post, EventOutcome { response: EventResponse::Nothing, fired: false })
                    },
                }
            },
            Kind::Menu => {
                let Component { kind, id, class, x, y, width, height, children, style, binds, clicked, toggle } =
                    self;
                match children {
                    Children::Children(v, f) => {
                        let ghost v0 = v@;
                        let mut nf: usize = f;
                        let mut fired: bool = false;
                        match e {
                            Event::Key(k) => {
                                if *k == Key::Down {
                                    nf = if v.len() > 0 && f < v.len() - 1 {
                                        f + 1
                                    } else {
                                        0
                                    };
                                } else if *k == Key::Up {
                                    nf = if f > 0 {
                                        f - 1
                                    } else if v.len() > 0 {
                                        v.len() - 1
                                    } else {
                                        0
                                    };
                                } else if *k == Key::Enter {
                                    fired = true;
                                }
                            },
                            _ => {},
                        }
                        let post = Component {
                            kind,
                            id,
                            class,
                            x,
                            y,
                            width,
                            height,
                            children: Children::Children(v, nf),
                            style,
                            binds,
                            clicked,
                            toggle,
                        };
                        proof {
                            assert(same_shell(pre, post));
                            assert(post.children@ == ChildrenSpec::Children(v0, nf as int));
                            if nf == f {
                                assert(post == pre);
                            }
                        }
                        (post, EventOutcome { response: EventResponse::Nothing, fired })
                    },
                    other => {
                        let post = Component {
                            kind,
                            id,
                            class,
                            x,
                            y,
                            width,
                            height,
                            children: other,
                            style,
                            binds,
                            clicked,
                            toggle,
                        };
                        proof {
                            assert(post == pre);
                        }
                        (post, EventOutcome { response: EventResponse::Nothing, fired: false })
                    },
                }
            },
        }
    }

    /// Applies one scheduled transient transition: index 0 enters the
    /// clicked state, index 1 reverts it, each firing the widget's
    /// callback; containers forward the tick to their focused child.
    #[verifier::loop_isolation(false)]
    pub fn tick(self, i: usize) -> (r: (Component, bool))
        ensures
            tick_rel(self, i as int, r.0, r.1),
        decreases self,
    {
        let ghost pre = self;
        match self.kind {
            Kind::Button => {
                if i == 0 {
                    let mut s = self;
                    s.clicked = true;
                    proof {
                        assert(s == (Component { clicked: true, ..pre }));
                    }
                    (s, true)
                } else if i == 1 {
                    let mut s = self;
                    s.clicked = false;
                    proof {
                        assert(s == (Component { clicked: false, ..pre }));
                    }
                    (s, true)
                } else {
                    (self, false)
                }
            },
            Kind::Div | Kind::Tab => {
                let Component { kind, id, class, x, y, width, height, children, style, binds, clicked, toggle } =
                    self;
                match children {
                    Children::Children(mut v, f) => {
                        let ghost v0 = v@;
                        if f < v.len() {
                            proof {
                                assert(pre.children == Children::Children(v, f));
                                assert(decreases_to!(pre => pre.children));
                                assert(decreases_to!(Children::Children(v, f) => v));
                                assert(decreases_to!(v => v@));
                                assert(decreases_to!(v@ => v@[f as int]));
                            }
                            let child = v.remove(f);
                            let (child2, fired) = child.tick(i);
                            v.insert(f, child2);
                            proof {
                                assert(v@ =~= v0.update(f as int, child2));
                            }
                            let post = Component {
                                kind,
                                id,
                                class,
                                x,
                                y,
                                width,
                                height,
                                children: Children::Children(v, f),
                                style,
                                binds,
                                clicked,
                                toggle,
                            };
                            proof {
                                assert(post.child_nodes() == v0.update(f as int, child2));
                                assert(post.child_nodes()[f as int] == child2);
                                assert(v0.update(f as int, child2) =~= v0.update(
                                    f as int,
                                    post.child_nodes()[f as int],
                                ));
                                assert(tick_rel(v0[f as int], i as int, child2, fired));
                                assert(same_shell(pre, post));
                            }
                            (post, fired)
                        } else {
                            let post = Component {
                                kind,
                                id,
                                class,
                                x,
                                y,
                                width,
                                height,
                                children: Children::Children(v, f),
                                style,
                                binds,
                                clicked,
                                toggle,
                            };
                            proof {
                                assert(post == pre);
                            }
                            (post, false)
                        }
                    },
                    other => {
                        let post = Component {
                            kind,
                            id,
                            class,
                            x,
                            y,
                            width,
                            height,
                            children: other,
                            style,
                            binds,
                            clicked,
                            toggle,
                        };
                        proof {
                            assert(post == pre);
                        }
                        (post, false)
                    },
                }
            },
            _ => (self, false),
        }
    }

    /// Applies a structural response to this widget as the owner of the
    /// tree it heads: a replacement for the widget itself stands in whole;
    /// a replacement by identifier splices over the first of this widget's
    /// children whose identifier matches; anything else changes nothing.
    pub fn apply_response(self, resp: EventResponse) -> (r: Component)
        ensures
            match resp@ {
                ResponseSpec::ReplaceSelf(w) => r == w,
                ResponseSpec::ReplaceById(rid, w) => {
                    &&& same_shell(self, r)
                    &&& (self.children is Children ==> r.children@ == ChildrenSpec::Children(
                        replace_by_id_spec(self.child_nodes(), rid, w),
                        self.focus(),
                    ))
                    &&& (!(self.children is Children) ==> r == self)
                },
                _ => r == self,
            },
    {
        let ghost pre = self;
        match resp {
            EventResponse::ReplaceSelf(b) => *b,
            EventResponse::ReplaceById(rid, b) => {
                let Component { kind, id, class, x, y, width, height, children, style, binds, clicked, toggle } =
                    self;
                match children {
                    Children::Children(mut v, f) => {
                        let ghost v0 = v@;
                        match index_of_id(&v, rid.as_str()) {
                            Some(ix) => {
                                v.set(ix, *b);
                            },
                            None => {},
                        }
                        proof {
                            assert(v@ =~= replace_by_id_spec(v0, rid@, *b));
                        }
                        Component {
                            kind,
                            id,
                            class,
                            x,
                            y,
                            width,
                            height,
                            children: Children::Children(v, f),
                            style,
                            binds,
                            clicked,
                            toggle,
                        }
                    },
                    other => {
                        let post = Component {
                            kind,
                            id,
                            class,
                            x,
                            y,
                            width,
                            height,
                            children: other,
                            style,
                            binds,
                            clicked,
                            toggle,
                        };
                        proof {
                            assert(post == pre);
                        }
                        post
                    },
                }
            },
            EventResponse::Nothing => self,
            EventResponse::Ticks(_) => self,
        }
    }
}

proof fn lemma_wf_unfold(c: Component, v: Vec<Component>, f: usize)
    requires
        c.wf(),
        c.children == Children::Children(v, f),
    ensures
        (f as int) < v@.len() || f == 0,
        all_wf(v@),
{
    match c.children {
        Children::Children(v2, f2) => {
            assert(v2 == v && f2 == f);
        },
        _ => {},
    }
}

proof fn lemma_wf_same_children(pre: Component, post: Component)
    requires
        pre.wf(),
        post.children == pre.children,
    ensures
        post.wf(),
{
    match post.children {
        Children::Children(v, f) => {
            assert(pre.children == Children::Children(v, f));
        },
        _ => {},
    }
}

proof fn lemma_wf_from_children_view(post: Component, s: Seq<Component>, n: int)
    requires
        post.children@ == ChildrenSpec::Children(s, n),
        n < s.len() || n == 0,
        all_wf(s),
    ensures
        post.wf(),
{
    match post.children {
        Children::Children(v2, f2) => {
            assert(v2@ == s && f2 as int == n);
        },
        Children::Empty => {
            assert(post.children@ is Empty);
        },
        Children::Text(_) => {
            assert(post.children@ is Text);
        },
    }
}

/// The data-model invariant is preserved by event dispatch: whatever one
/// event does to a well-formed tree — re-focusing, cycling, toggling, or
/// forwarding along the focused path — every focus index in the result is
/// still valid (or 0 for an empty child list).
pub proof fn lemma_event_preserves_wf(
    pre: Component,
    e: Event,
    post: Component,
    resp: ResponseSpec,
    fired: bool,
)
    requires
        pre.wf(),
        event_rel(pre, e, post, resp, fired),
    ensures
        post.wf(),
    decreases pre, 1int,
{
    match pre.kind {
        Kind::Text => {},
        Kind::Button => {
            if post != pre {
                assert(post == (Component { clicked: !pre.clicked, ..pre }));
                lemma_wf_same_children(pre, post);
            }
        },
        Kind::Div | Kind::Tab | Kind::Menu => {
            match pre.children {
                Children::Children(v, f) => {
                    match e {
                        Event::Key(k) => {
                            lemma_event_preserves_wf_container(pre, v, f, k, e, post, resp, fired);
                        },
                        _ => {},
                    }
                },
                _ => {},
            }
        },
    }
}

proof fn lemma_event_preserves_wf_container(
    pre: Component,
    v: Vec<Component>,
    f: usize,
    k: Key,
    e: Event,
    post: Component,
    resp: ResponseSpec,
    fired: bool,
)
    requires
        pre.wf(),
        event_rel(pre, e, post, resp, fired),
        pre.children == Children::Children(v, f),
        pre.kind is Div || pre.kind is Tab || pre.kind is Menu,
        e == Event::Key(k),
    ensures
        post.wf(),
    decreases pre, 0int,
{
    let forwarded = (pre.kind is Div && bind_action_spec(pre.binds@, k) is None) || (pre.kind
        is Tab && bind_action_spec(pre.binds@, k) is None);
    if forwarded && 0 <= (f as int) < v@.len() {
        let cp = post.child_nodes()[f as int];
        assert(forward_rel(pre, v@, f as int, e, post, resp, fired));
        assert(event_rel(v@[f as int], e, cp, resp, fired));
        assert(decreases_to!(pre => pre.children));
        assert(decreases_to!(Children::Children(v, f) => v));
        assert(decreases_to!(v => v@));
        assert(decreases_to!(v@ => v@[f as int]));
        lemma_wf_unfold(pre, v, f);
        lemma_all_wf_index(v@, f as int);
        lemma_event_preserves_wf(v@[f as int], e, cp, resp, fired);
        lemma_all_wf_update(v@, f as int, cp);
        lemma_wf_from_children_view(post, v@.update(f as int, cp), f as int);
    } else if post != pre {
        // a re-focus: the children are unchanged and the new focus index
        // comes from the navigator or a cycle, both of which stay in range
        let n = post.children.focus_of();
        assert(post.children@ == ChildrenSpec::Children(v@, n));
        lemma_wf_unfold(pre, v, f);
        if pre.kind is Div {
            match bind_action_spec(pre.binds@, k) {
                Option::Some(a) => match action_direction(a) {
                    Option::Some(d) => {
                        if 0 <= (f as int) < v@.len() {
                            crate::utils::lemma_closest_index_valid(v@, f as int, d);
                        }
                    },
                    Option::None => {},
                },
                Option::None => {},
            }
        }
        assert(n < v@.len() || n == 0);
        lemma_wf_from_children_view(post, v@, n);
    }
}

/// The button activation state machine: dispatching its bound activation
/// key to an idle flash-mode button leaves the button as it is and hands
/// the runtime the clicked-then-revert schedule; the first scheduled tick
/// enters the clicked state and fires the callback, the second returns to
/// idle and fires it a second time — `Idle -> Clicked -> Idle`, with no
/// other state reachable from the schedule.
pub proof fn lemma_button_flash_cycle(
    b: Component,
    k: Key,
    b1: Component,
    resp: ResponseSpec,
    fired: bool,
    b2: Component,
    f1: bool,
    b3: Component,
    f2: bool,
)
    requires
        b.kind is Button,
        !b.toggle,
        bind_action_spec(b.binds@, k) == Option::Some(Action::Click),
        event_rel(b, Event::Key(k), b1, resp, fired),
        tick_rel(b1, 0, b2, f1),
        tick_rel(b2, 1, b3, f2),
    ensures
        b1 == b,
        resp == ResponseSpec::Ticks(button_ticks_spec()),
        !fired,
        b2 == (Component { clicked: true, ..b }),
        f1,
        b3 == (Component { clicked: false, ..b }),
        f2,
{
}

/// The data-model invariant is preserved by scheduled ticks as well.
pub proof fn lemma_tick_preserves_wf(pre: Component, i: int, post: Component, fired: bool)
    requires
        pre.wf(),
        tick_rel(pre, i, post, fired),
    ensures
        post.wf(),
    decreases pre,
{
    match pre.kind {
        Kind::Button => {
            if post != pre {
                lemma_wf_same_children(pre, post);
            }
        },
        Kind::Div | Kind::Tab => {
            match pre.children {
                Children::Children(v, f) => {
                    if 0 <= (f as int) < v@.len() {
                        let cp = post.child_nodes()[f as int];
                        assert(pre.children == Children::Children(v, f));
                        assert(decreases_to!(pre => pre.children));
                        assert(decreases_to!(Children::Children(v, f) => v));
                        assert(decreases_to!(v => v@));
                        assert(decreases_to!(v@ => v@[f as int]));
                        lemma_wf_unfold(pre, v, f);
                        lemma_all_wf_index(v@, f as int);
                        lemma_tick_preserves_wf(v@[f as int], i, cp, fired);
                        lemma_all_wf_update(v@, f as int, cp);
                        lemma_wf_from_children_view(post, v@.update(f as int, cp), f as int);
                    }
                },
                _ => {},
            }
        },
        _ => {},
    }
}

/// The first style the table gives for the class, scanned in table order.
pub open spec fn class_style_spec(table: Seq<(String, Style)>, class: Seq<char>) -> Option<Style>
    decreases table.len(),
{
    if table.len() == 0 {
        Option::None
    } else if table[0].0@ == class {
        Option::Some(table[0].1)
    } else {
        class_style_spec(table.skip(1), class)
    }
}

fn class_style<'a>(table: &'a Vec<(String, Style)>, class: &str) -> (r: Option<&'a Style>)
    ensures
        match r {
            Some(st) => class_style_spec(table@, class@) == Option::Some(*st),
            None => class_style_spec(table@, class@) is None,
        },
{
    let mut i: usize = 0;
    proof {
        assert(table@.skip(0) == table@);
    }
    while i < table.len()
        invariant
            i <= table@.len(),
            class_style_spec(table@, class@) == class_style_spec(table@.skip(i as int), class@),
        decreases table@.len() - i,
    {
        proof {
            assert(table@.skip(i as int)[0] == table@[i as int]);
            assert(table@.skip(i as int).skip(1) =~= table@.skip(i as int + 1));
        }
        if str_eq(table[i].0.as_str(), class) {
            return Some(&table[i].1);
        }
        i += 1;
    }
    None
}

/// How applying a style table relates a tree before and after: each widget
/// whose class the table names takes the class's values into its
/// still-unset style fields, recursively through all children; everything
/// else is untouched.
pub open spec fn styled_rel(pre: Component, table: Seq<(String, Style)>, post: Component) -> bool
    decreases pre, 1int, 0int,
{
    &&& post.kind == pre.kind
    &&& post.id == pre.id
    &&& post.class == pre.class
    &&& post.x == pre.x
    &&& post.y == pre.y
    &&& post.width == pre.width
    &&& post.height == pre.height
    &&& post.binds == pre.binds
    &&& post.clicked == pre.clicked
    &&& post.toggle == pre.toggle
    &&& crate::ui::style_like(
        post.style,
        match class_style_spec(table, pre.class@) {
            Option::Some(c) => merge_style_spec(pre.style, c),
            Option::None => pre.style,
        },
    )
    &&& match pre.children {
        Children::Children(v, f) => {
            &&& post.children@ is Children
            &&& post.child_nodes().len() == v@.len()
            &&& post.focus() == f as int
            &&& styled_nodes_rel(v@, table, post.child_nodes(), v@.len() as int)
        },
        _ => post.children == pre.children,
    }
}

/// The first `n` children each styled as `styled_rel` says.
pub open spec fn styled_nodes_rel(
    pre_nodes: Seq<Component>,
    table: Seq<(String, Style)>,
    post_nodes: Seq<Component>,
    n: int,
) -> bool
    decreases pre_nodes, 0int, n,
{
    if n <= 0 || pre_nodes.len() < n || post_nodes.len() < n {
        true
    } else {
        styled_rel(pre_nodes[n - 1], table, post_nodes[n - 1]) && styled_nodes_rel(
            pre_nodes,
            table,
            post_nodes,
            n - 1,
        )
    }
}

proof fn lemma_styled_nodes_same_prefix(
    pre_nodes: Seq<Component>,
    table: Seq<(String, Style)>,
    p1: Seq<Component>,
    p2: Seq<Component>,
    n: int,
)
    requires
        styled_nodes_rel(pre_nodes, table, p1, n),
        forall|t: int| 0 <= t < n ==> p1[t] == p2[t],
        n <= pre_nodes.len(),
        n <= p1.len(),
        n <= p2.len(),
    ensures
        styled_nodes_rel(pre_nodes, table, p2, n),
    decreases n,
{
    if n > 0 {
        lemma_styled_nodes_same_prefix(pre_nodes, table, p1, p2, n - 1);
    }
}

impl Component {
    /// Applies the finished class-to-style table an external stylesheet
    /// resolver produced: every widget in the tree whose class the table
    /// names takes the class's values into its still-unset style fields,
    /// never clobbering a field set on the widget itself.
    #[verifier::loop_isolation(false)]
    #[verifier::rlimit(60)]
    pub fn set_styling(self, table: &Vec<(String, Style)>) -> (r: Component)
        ensures
            styled_rel(self, table@, r),
        decreases self,
    {
        let ghost pre = self;
        let Component { kind, id, class, x, y, width, height, children, style, binds, clicked, toggle } =
            self;
        let style = match class_style(table, class.as_str()) {
            Some(c) => style.merge(c),
            None => style,
        };
        let children = match children {
            Children::Children(mut v, f) => {
                let ghost vc = v;
                let ghost v0 = v@;
                let mut i: usize = 0;
                while i < v.len()
                    invariant
                        i <= v0.len(),
                        v@.len() == v0.len(),
                        forall|t: int| i <= t < v0.len() ==> v@[t] == v0[t],
                        styled_nodes_rel(v0, table@, v@, i as int),
                    decreases v0.len() - i,
                {
                    let ghost v_prev = v@;
                    proof {
                        assert(v@[i as int] == v0[i as int]);
                        assert(pre.children == Children::Children(vc, f));
                        assert(decreases_to!(pre => pre.children));
                        assert(decreases_to!(Children::Children(vc, f) => vc));
                        assert(decreases_to!(vc => vc@));
                        assert(decreases_to!(vc@ => vc@[i as int]));
                    }
                    let child = v.remove(i);
                    let styled = child.set_styling(table);
                    v.insert(i, styled);
                    proof {
                        assert(v@ =~= v_prev.update(i as int, styled));
                        lemma_styled_nodes_same_prefix(v0, table@, v_prev, v@, i as int);
                        assert(styled_rel(v0[i as int], table@, v@[i as int]));
                    }
                    i += 1;
                }
                Children::Children(v, f)
            },
            other => other,
        };
        let post = Component {
            kind,
            id,
            class,
            x,
            y,
            width,
            height,
            children,
            style,
            binds,
            clicked,
            toggle,
        };
        proof {
            assert(styled_rel(pre, table@, post));
        }
        post
    }
}

/// Depth-first identifier search: the widget itself first, then its
/// children in order.
pub open spec fn find_by_id_spec(c: Component, id: Seq<char>) -> Option<Component>
    decreases c,
{
    if c.id@ == id {
        Option::Some(c)
    } else {
        match c.children {
            Children::Children(v, _) => find_in_seq_spec(v@, id),
            _ => Option::None,
        }
    }
}

/// The first identifier match in a child list, searching each child's
/// subtree in order.
pub open spec fn find_in_seq_spec(v: Seq<Component>, id: Seq<char>) -> Option<Component>
    decreases v,
{
    if v.len() == 0 {
        Option::None
    } else {
        match find_by_id_spec(v[0], id) {
            Option::Some(r) => Option::Some(r),
            Option::None => find_in_seq_spec(v.skip(1), id),
        }
    }
}

impl Component {
    /// The currently focused child, when the content is a child list and
    /// the focus index is in range.
    pub fn get_child(&self) -> (r: Option<&Component>)
        ensures
            match r {
                Some(c) => self.children is Children && 0 <= self.focus()
                    < self.child_nodes().len() && *c == self.child_nodes()[self.focus()],
                None => !(self.children is Children) || self.child_nodes().len() <= self.focus(),
            },
    {
        match &self.children {
            Children::Children(v, f) => {
                if *f < v.len() {
                    Some(&v[*f])
                } else {
                    None
                }
            },
            _ => None,
        }
    }

    /// Looks the widget with the given identifier up, depth-first: the
    /// widget itself first, then its children in order; `None` on a miss.
    #[verifier::loop_isolation(false)]
    pub fn get_element_by_id<'a>(&'a self, id: &str) -> (r: Option<&'a Component>)
        ensures
            match r {
                Some(p) => find_by_id_spec(*self, id@) == Option::Some(*p),
                None => find_by_id_spec(*self, id@) is None,
            },
        decreases *self,
    {
        if str_eq(self.id.as_str(), id) {
            return Some(self);
        }
        match &self.children {
            Children::Children(v, _focus) => {
                let mut i: usize = 0;
                proof {
                    assert(v@.skip(0) == v@);
                }
                while i < v.len()
                    invariant
                        i <= v@.len(),
                        find_in_seq_spec(v@, id@) == find_in_seq_spec(v@.skip(i as int), id@),
                    decreases v@.len() - i,
                {
                    proof {
                        assert(self.children == Children::Children(*v, *_focus));
                        assert(decreases_to!(*self => self.children));
                        assert(decreases_to!(Children::Children(*v, *_focus) => *v));
                        assert(decreases_to!(*v => v@));
                        assert(decreases_to!(v@ => v@[i as int]));
                        assert(v@.skip(i as int)[0] == v@[i as int]);
                        assert(v@.skip(i as int).skip(1) =~= v@.skip(i as int + 1));
                    }
                    match v[i].get_element_by_id(id) {
                        Some(p) => {
                            return Some(p);
                        },
                        None => {},
                    }
                    i += 1;
                }
                None
            },
            _ => None,
        }
    }
}

} // verus!
