//! Modal dialogs: the events that open them, the layout of their panel, and the rules by
//! which they are dismissed.
use vstd::prelude::*;

use crate::hierarchy::{nearest_in, EntityTree};
use crate::hierarchy::vec_contains;
use crate::text::push_str;

verus! {

// ---------------------------------------------------------------------------------------
// Lengths
// ---------------------------------------------------------------------------------------

/// A single-precision number, carried by its IEEE-754 bit pattern. The dialog logic never
/// computes with it; it only stores and hands on lengths chosen by the caller.
#[derive(PartialEq, Eq, Structural, Clone, Copy, Debug)]
pub struct Scalar {
    pub bits: u32,
}

/// The IEEE-754 bit pattern of 0.0.
pub const SCALAR_ZERO_BITS: u32 = 0x0000_0000;

/// The IEEE-754 bit pattern of 24.0, the default content padding in pixels.
pub const SCALAR_24_BITS: u32 = 0x41C0_0000;

/// The IEEE-754 bit pattern of 448.0, the default maximum width of a panel in pixels.
pub const SCALAR_448_BITS: u32 = 0x43E0_0000;

/// A length of the user interface.
#[derive(PartialEq, Eq, Structural, Clone, Copy, Debug)]
pub enum Val {
    Auto,
    Px(Scalar),
    Percent(Scalar),
    Vw(Scalar),
    Vh(Scalar),
    VMin(Scalar),
    VMax(Scalar),
}

/// The four sides of a rectangle, each a length.
#[derive(PartialEq, Eq, Structural, Clone, Copy, Debug)]
pub struct UiRect {
    pub left: Val,
    pub right: Val,
    pub top: Val,
    pub bottom: Val,
}

/// A length of `n` pixels, `n` given by its bit pattern.
pub open spec fn px_bits(bits: u32) -> Val {
    Val::Px(Scalar { bits })
}

impl UiRect {
    /// The same length on all four sides.
    pub fn all(v: Val) -> (res: UiRect)
        ensures
            res == (UiRect { left: v, right: v, top: v, bottom: v }),
    {
        UiRect { left: v, right: v, top: v, bottom: v }
    }

    /// Zero pixels on all four sides.
    pub fn zero() -> (res: UiRect)
        ensures
            res == UiRect::spec_all(px_bits(SCALAR_ZERO_BITS)),
    {
        UiRect::all(Val::Px(Scalar { bits: SCALAR_ZERO_BITS }))
    }

    /// The same length on all four sides.
    pub open spec fn spec_all(v: Val) -> UiRect {
        UiRect { left: v, right: v, top: v, bottom: v }
    }
}

// ---------------------------------------------------------------------------------------
// Variants
// ---------------------------------------------------------------------------------------

/// The look of a dialog's action button.
#[derive(PartialEq, Eq, Structural, Clone, Copy, Debug)]
pub enum ButtonVariant {
    Primary,
    Destructive,
}

/// The look of a dialog: an ordinary one, or one that confirms a destructive action.
#[derive(PartialEq, Eq, Structural, Clone, Copy, Debug)]
pub enum DialogVariant {
    Default,
    Destructive,
}

impl DialogVariant {
    /// The variant of the action button of a dialog of this variant.
    pub open spec fn spec_action_button_variant(self) -> ButtonVariant {
        match self {
            DialogVariant::Default => ButtonVariant::Primary,
            DialogVariant::Destructive => ButtonVariant::Destructive,
        }
    }

    /// The variant of the action button of a dialog of this variant.
    pub fn action_button_variant(&self) -> (res: ButtonVariant)
        ensures
            res == self.spec_action_button_variant(),
    {
        match self {
            DialogVariant::Default => ButtonVariant::Primary,
            DialogVariant::Destructive => ButtonVariant::Destructive,
        }
    }
}

/// How an open dialog may be closed by the user besides its buttons.
#[derive(PartialEq, Eq, Structural, Clone, Copy, Debug)]
pub struct DialogConfig {
    pub close_on_click_outside: bool,
    pub close_on_esc: bool,
}

// ---------------------------------------------------------------------------------------
// Opening events
// ---------------------------------------------------------------------------------------

/// A request to open a dialog.
pub struct OpenDialogEvent {
    pub title: Option<String>,
    pub description: Option<String>,
    pub action: Option<String>,
    pub cancel: Option<String>,
    pub variant: DialogVariant,
    pub has_close_button: bool,
    pub close_on_click_outside: bool,
    pub close_on_esc: bool,
    pub max_width: Option<Val>,
    pub content_padding: UiRect,
}

/// The characters of an optional string.
pub open spec fn opt_view(o: Option<String>) -> Option<Seq<char>> {
    match o {
        Some(s) => Some(s@),
        None => None,
    }
}

fn string_from(s: &str) -> (res: String)
    ensures
        res@ == s@,
{
    let mut out = String::new();
    push_str(&mut out, s);
    out
}

fn clone_opt(o: &Option<String>) -> (res: Option<String>)
    ensures
        res == *o,
{
    match o {
        Some(s) => Some(s.clone()),
        None => None,
    }
}

impl OpenDialogEvent {
    /// A dialog with a title and an action button, a "Cancel" button, a close button, the
    /// default look, closed by a click outside it or by Escape, of the default width and
    /// with 24 pixels of padding around its content.
    pub fn new(title: &str, action: &str) -> (res: Self)
        ensures
            opt_view(res.title) == Some(title@),
            res.description is None,
            opt_view(res.action) == Some(action@),
            opt_view(res.cancel) == Some("Cancel"@),
            res.variant == DialogVariant::Default,
            res.has_close_button,
            res.close_on_click_outside,
            res.close_on_esc,
            res.max_width is None,
            res.content_padding == UiRect::spec_all(px_bits(SCALAR_24_BITS)),
    {
        OpenDialogEvent {
            title: Some(string_from(title)),
            description: None,
            action: Some(string_from(action)),
            cancel: Some(string_from("Cancel")),
            variant: DialogVariant::Default,
            has_close_button: true,
            close_on_click_outside: true,
            close_on_esc: true,
            max_width: None,
            content_padding: UiRect::all(Val::Px(Scalar { bits: SCALAR_24_BITS })),
        }
    }

    /// The same dialog without a cancel button.
    pub fn without_cancel(self) -> (res: Self)
        ensures
            res == (OpenDialogEvent { cancel: None, ..self }),
    {
        let mut s = self;
        s.cancel = None;
        s
    }

    /// The same dialog with the look `variant`.
    pub fn with_variant(self, variant: DialogVariant) -> (res: Self)
        ensures
            res == (OpenDialogEvent { variant, ..self }),
    {
        let mut s = self;
        s.variant = variant;
        s
    }

    /// The same dialog, with or without a close button.
    pub fn with_close_button(self, has_close_button: bool) -> (res: Self)
        ensures
            res == (OpenDialogEvent { has_close_button, ..self }),
    {
        let mut s = self;
        s.has_close_button = has_close_button;
        s
    }

    /// The same dialog, closed or not by a click outside its panel.
    pub fn with_close_on_click_outside(self, close_on_click_outside: bool) -> (res: Self)
        ensures
            res == (OpenDialogEvent { close_on_click_outside, ..self }),
    {
        let mut s = self;
        s.close_on_click_outside = close_on_click_outside;
        s
    }

    /// The same dialog with the maximum width `max_width`.
    pub fn with_max_width(self, max_width: Val) -> (res: Self)
        ensures
            res == (OpenDialogEvent { max_width: Some(max_width), ..self }),
    {
        let mut s = self;
        s.max_width = Some(max_width);
        s
    }

    /// The same dialog with no padding around its content.
    pub fn without_content_padding(self) -> (res: Self)
        ensures
            res == (OpenDialogEvent {
                content_padding: UiRect::spec_all(px_bits(SCALAR_ZERO_BITS)),
                ..self
            }),
    {
        let mut s = self;
        s.content_padding = UiRect::zero();
        s
    }
}

impl<'a> From<&'a OpenConfirmationDialogEvent> for OpenDialogEvent {
    /// The dialog that asks to confirm a destructive action: the dialog of
    /// `OpenDialogEvent::new` with the confirmation's title and action, its description,
    /// the destructive look, no close button, and not closed by a click outside it.
    fn from(event: &'a OpenConfirmationDialogEvent) -> (res: Self)
        ensures
            opt_view(res.title) == Some(event.title@),
            res.description == event.description,
            opt_view(res.action) == Some(event.action@),
            opt_view(res.cancel) == Some("Cancel"@),
            res.variant == DialogVariant::Destructive,
            !res.has_close_button,
            !res.close_on_click_outside,
            res.close_on_esc,
            res.max_width is None,
            res.content_padding == UiRect::spec_all(px_bits(SCALAR_24_BITS)),
    {
        let mut dialog = OpenDialogEvent::new(event.title.as_str(), event.action.as_str()).with_variant(
            DialogVariant::Destructive,
        ).with_close_button(false).with_close_on_click_outside(false);
        dialog.description = clone_opt(&event.description);
        dialog
    }
}

impl<'a> vstd::std_specs::convert::FromSpecImpl<&'a OpenConfirmationDialogEvent> for OpenDialogEvent {
    /// The conversion is stated by the contract of `from` itself (its strings have no
    /// spec-level constructor), so no `from_spec` describes it.
    open spec fn obeys_from_spec() -> bool {
        false
    }

    open spec fn from_spec(v: &'a OpenConfirmationDialogEvent) -> Self {
        vstd::pervasive::arbitrary()
    }
}

/// A request to confirm a destructive action.
pub struct OpenConfirmationDialogEvent {
    pub title: String,
    pub description: Option<String>,
    pub action: String,
}

impl OpenConfirmationDialogEvent {
    /// A confirmation with a title and the label of the action, without description.
    pub fn new(title: &str, action: &str) -> (res: Self)
        ensures
            res.title@ == title@,
            res.description is None,
            res.action@ == action@,
    {
        OpenConfirmationDialogEvent {
            title: string_from(title),
            description: None,
            action: string_from(action),
        }
    }

    /// The same confirmation with the description `description`.
    pub fn with_description(self, description: &str) -> (res: Self)
        ensures
            res.title == self.title,
            opt_view(res.description) == Some(description@),
            res.action == self.action,
    {
        let mut s = self;
        s.description = Some(string_from(description));
        s
    }
}

// ---------------------------------------------------------------------------------------
// Layout
// ---------------------------------------------------------------------------------------

/// A text of the header of a dialog.
pub enum HeaderText {
    Title(String),
    Description(String),
}

/// A button of the footer of a dialog.
pub enum FooterButton {
    /// The cancel button, with its label.
    Cancel(String),
    /// The action button, with its label and look.
    Action(String, ButtonVariant),
}

/// A part of the panel of a dialog, from top to bottom.
pub enum PanelSection {
    /// The title and description.
    Header(Vec<HeaderText>),
    /// The place where the caller puts the dialog's content, with its padding.
    ChildrenSlot(UiRect),
    /// The cancel and action buttons.
    Footer(Vec<FooterButton>),
    /// The close button in the corner.
    CloseButton,
}

/// How an open dialog is laid out.
pub struct DialogLayout {
    pub variant: DialogVariant,
    pub config: DialogConfig,
    pub max_width: Val,
    pub sections: Vec<PanelSection>,
}

/// The texts of a header, as plain values: `true` marks the title.
pub open spec fn header_view(texts: Seq<HeaderText>) -> Seq<(bool, Seq<char>)> {
    texts.map_values(
        |t: HeaderText|
            match t {
                HeaderText::Title(s) => (true, s@),
                HeaderText::Description(s) => (false, s@),
            },
    )
}

/// The header texts of a dialog: its title, then its description, each if present.
pub open spec fn header_spec(title: Option<Seq<char>>, description: Option<Seq<char>>) -> Seq<
    (bool, Seq<char>),
> {
    let t = match title {
        Some(s) => seq![(true, s)],
        None => Seq::empty(),
    };
    let d = match description {
        Some(s) => seq![(false, s)],
        None => Seq::empty(),
    };
    t + d
}

/// The buttons of a footer, as plain values: the label and, for the action button, its
/// look.
pub open spec fn footer_view(buttons: Seq<FooterButton>) -> Seq<(Seq<char>, Option<ButtonVariant>)> {
    buttons.map_values(
        |b: FooterButton|
            match b {
                FooterButton::Cancel(s) => (s@, None),
                FooterButton::Action(s, v) => (s@, Some(v)),
            },
    )
}

/// The footer buttons of a dialog: its cancel button, then its action button in the look
/// of the dialog's variant, each if present.
pub open spec fn footer_spec(
    cancel: Option<Seq<char>>,
    action: Option<Seq<char>>,
    variant: DialogVariant,
) -> Seq<(Seq<char>, Option<ButtonVariant>)> {
    let c = match cancel {
        Some(s) => seq![(s, None)],
        None => Seq::empty(),
    };
    let a = match action {
        Some(s) => seq![(s, Some(variant.spec_action_button_variant()))],
        None => Seq::empty(),
    };
    c + a
}

/// The kind of a panel section, with its contents as plain values.
pub enum SectionView {
    Header(Seq<(bool, Seq<char>)>),
    ChildrenSlot(UiRect),
    Footer(Seq<(Seq<char>, Option<ButtonVariant>)>),
    CloseButton,
}

/// A panel section as plain values.
pub open spec fn section_view(s: PanelSection) -> SectionView {
    match s {
        PanelSection::Header(texts) => SectionView::Header(header_view(texts@)),
        PanelSection::ChildrenSlot(p) => SectionView::ChildrenSlot(p),
        PanelSection::Footer(buttons) => SectionView::Footer(footer_view(buttons@)),
        PanelSection::CloseButton => SectionView::CloseButton,
    }
}

/// The sections of the panel of the dialog `e`, top to bottom: a header when it has a
/// title or a description, the content slot, a footer when it has an action or a cancel
/// button, and the close button when it has one.
pub open spec fn sections_spec(e: OpenDialogEvent) -> Seq<SectionView> {
    let header = if e.title is Some || e.description is Some {
        seq![SectionView::Header(header_spec(opt_view(e.title), opt_view(e.description)))]
    } else {
        Seq::empty()
    };
    let slot = seq![SectionView::ChildrenSlot(e.content_padding)];
    let footer = if e.action is Some || e.cancel is Some {
        seq![
            SectionView::Footer(
                footer_spec(opt_view(e.cancel), opt_view(e.action), e.variant),
            ),
        ]
    } else {
        Seq::empty()
    };
    let close = if e.has_close_button {
        seq![SectionView::CloseButton]
    } else {
        Seq::empty()
    };
    header + slot + footer + close
}

/// The header of a dialog shows the title first and the description last, each exactly
/// when the request has it, and nothing else.
pub proof fn lemma_header_law(title: Option<Seq<char>>, description: Option<Seq<char>>)
    ensures
        ({
            let h = header_spec(title, description);
            &&& h.len() == (if title is Some { 1int } else { 0 }) + (if description is Some {
                1int
            } else {
                0
            })
            &&& title matches Some(t) ==> h[0] == (true, t)
            &&& description matches Some(d) ==> h[h.len() - 1] == (false, d)
            &&& forall|i: int|
                0 <= i < h.len() ==> if (#[trigger] h[i]).0 {
                    title == Some(h[i].1)
                } else {
                    description == Some(h[i].1)
                }
        }),
{
    let h = header_spec(title, description);
    match title {
        Some(t) => {
            match description {
                Some(d) => {
                    assert(h =~= seq![(true, t), (false, d)]);
                },
                None => {
                    assert(h =~= seq![(true, t)]);
                },
            }
        },
        None => {
            match description {
                Some(d) => {
                    assert(h =~= seq![(false, d)]);
                },
                None => {
                    assert(h =~= Seq::<(bool, Seq<char>)>::empty());
                },
            }
        },
    }
}

/// The footer of a dialog shows the cancel button first and the action button last, each
/// exactly when the request has it; the action button is primary in an ordinary dialog
/// and destructive in a destructive one, and the cancel button has no variant of its own.
pub proof fn lemma_footer_law(
    cancel: Option<Seq<char>>,
    action: Option<Seq<char>>,
    variant: DialogVariant,
)
    ensures
        ({
            let f = footer_spec(cancel, action, variant);
            let look = if variant == DialogVariant::Default {
                ButtonVariant::Primary
            } else {
                ButtonVariant::Destructive
            };
            &&& f.len() == (if cancel is Some { 1int } else { 0 }) + (if action is Some {
                1int
            } else {
                0
            })
            &&& cancel matches Some(c) ==> f[0] == (c, None::<ButtonVariant>)
            &&& action matches Some(a) ==> f[f.len() - 1] == (a, Some(look))
            &&& forall|i: int|
                0 <= i < f.len() ==> match (#[trigger] f[i]).1 {
                    None => cancel == Some(f[i].0),
                    Some(v) => action == Some(f[i].0) && v == look,
                }
        }),
{
    let f = footer_spec(cancel, action, variant);
    let look = variant.spec_action_button_variant();
    match cancel {
        Some(c) => {
            match action {
                Some(a) => {
                    assert(f =~= seq![(c, None), (a, Some(look))]);
                },
                None => {
                    assert(f =~= seq![(c, None)]);
                },
            }
        },
        None => {
            match action {
                Some(a) => {
                    assert(f =~= seq![(a, Some(look))]);
                },
                None => {
                    assert(f =~= Seq::<(Seq<char>, Option<ButtonVariant>)>::empty());
                },
            }
        },
    }
}

/// The panel of a dialog: exactly one content slot, carrying the request's padding; a
/// header exactly when the request has a title or a description, placed first; a footer
/// exactly when it has an action or a cancel button; a close button exactly when it asks
/// for one, placed last.
pub proof fn lemma_layout_law(e: OpenDialogEvent)
    ensures
        ({
            let s = sections_spec(e);
            let has_header = e.title is Some || e.description is Some;
            let has_footer = e.action is Some || e.cancel is Some;
            &&& exists|i: int| 0 <= i < s.len() && s[i] == SectionView::ChildrenSlot(e.content_padding)
            &&& forall|i: int, j: int|
                0 <= i < s.len() && 0 <= j < s.len() && (#[trigger] s[i]) is ChildrenSlot
                    && (#[trigger] s[j]) is ChildrenSlot ==> i == j
            &&& forall|i: int|
                0 <= i < s.len() && (#[trigger] s[i]) is ChildrenSlot ==> s[i]
                    == SectionView::ChildrenSlot(e.content_padding)
            &&& (exists|i: int| 0 <= i < s.len() && (#[trigger] s[i]) is Header) == has_header
            &&& (has_header ==> s[0] is Header)
            &&& (exists|i: int| 0 <= i < s.len() && (#[trigger] s[i]) is Footer) == has_footer
            &&& (exists|i: int| 0 <= i < s.len() && (#[trigger] s[i]) is CloseButton)
                == e.has_close_button
            &&& (e.has_close_button ==> s[s.len() - 1] is CloseButton)
            &&& s.len() == 1 + (if has_header { 1int } else { 0 }) + (if has_footer {
                1int
            } else {
                0
            }) + (if e.has_close_button { 1int } else { 0 })
        }),
{
    let s = sections_spec(e);
    let has_header = e.title is Some || e.description is Some;
    let has_footer = e.action is Some || e.cancel is Some;
    let hs = if has_header {
        seq![SectionView::Header(header_spec(opt_view(e.title), opt_view(e.description)))]
    } else {
        Seq::empty()
    };
    let fs = if has_footer {
        seq![SectionView::Footer(footer_spec(opt_view(e.cancel), opt_view(e.action), e.variant))]
    } else {
        Seq::empty()
    };
    let cs = if e.has_close_button {
        seq![SectionView::CloseButton]
    } else {
        Seq::empty()
    };
    let slot = seq![SectionView::ChildrenSlot(e.content_padding)];
    assert(s =~= hs + slot + fs + cs);
    let h = hs.len() as int;
    let f = fs.len() as int;
    assert(s[h] == SectionView::ChildrenSlot(e.content_padding));
    assert forall|i: int| 0 <= i < s.len() implies ((#[trigger] s[i]) is ChildrenSlot <==> i == h)
        && (s[i] is Header <==> (has_header && i == 0)) && (s[i] is Footer <==> (has_footer && i
        == h + 1)) && (s[i] is CloseButton <==> (e.has_close_button && i == h + 1 + f)) by {
        if i < h {
            assert(s[i] == hs[i]);
        } else if i == h {
        } else if i < h + 1 + f {
            assert(s[i] == fs[i - h - 1]);
        } else {
            assert(s[i] == cs[i - h - 1 - f]);
        }
    }
    if has_header {
        assert(s[0] is Header);
    }
    if has_footer {
        assert(s[h + 1] is Footer);
    }
    if e.has_close_button {
        assert(s[h + 1 + f] is CloseButton);
    }
}

/// The header texts for `title` and `description`.
pub fn dialog_header(title: &Option<String>, description: &Option<String>) -> (res: Vec<
    HeaderText,
>)
    ensures
        header_view(res@) == header_spec(opt_view(*title), opt_view(*description)),
        res@.len() == (if title is Some { 1int } else { 0 }) + (if description is Some {
            1int
        } else {
            0
        }),
        title matches Some(t) ==> (res@[0] matches HeaderText::Title(s) && s@ == t@),
        description matches Some(d) ==> (res@[res@.len() - 1] matches HeaderText::Description(s)
            && s@ == d@),
{
    proof {
        lemma_header_law(opt_view(*title), opt_view(*description));
    }
    let mut texts: Vec<HeaderText> = Vec::new();
    match title {
        Some(t) => texts.push(HeaderText::Title(t.clone())),
        None => {},
    }
    match description {
        Some(d) => texts.push(HeaderText::Description(d.clone())),
        None => {},
    }
    assert(header_view(texts@) =~= header_spec(opt_view(*title), opt_view(*description)));
    proof {
        let v = header_view(texts@);
        if texts@.len() > 0 {
            assert(v[0] == (match texts@[0] {
                HeaderText::Title(s) => (true, s@),
                HeaderText::Description(s) => (false, s@),
            }));
            assert(v[v.len() - 1] == (match texts@[texts@.len() - 1] {
                HeaderText::Title(s) => (true, s@),
                HeaderText::Description(s) => (false, s@),
            }));
        }
    }
    texts
}

/// The footer buttons for `cancel` and `action` in a dialog of look `variant`.
pub fn dialog_footer(cancel: &Option<String>, action: &Option<String>, variant: DialogVariant) -> (res:
    Vec<FooterButton>)
    ensures
        footer_view(res@) == footer_spec(opt_view(*cancel), opt_view(*action), variant),
        res@.len() == (if cancel is Some { 1int } else { 0 }) + (if action is Some {
            1int
        } else {
            0
        }),
        cancel matches Some(c) ==> (res@[0] matches FooterButton::Cancel(s) && s@ == c@),
        action matches Some(a) ==> (res@[res@.len() - 1] matches FooterButton::Action(s, v) && s@
            == a@ && v == (if variant == DialogVariant::Default {
            ButtonVariant::Primary
        } else {
            ButtonVariant::Destructive
        })),
{
    proof {
        lemma_footer_law(opt_view(*cancel), opt_view(*action), variant);
    }
    let mut buttons: Vec<FooterButton> = Vec::new();
    match cancel {
        Some(c) => buttons.push(FooterButton::Cancel(c.clone())),
        None => {},
    }
    match action {
        Some(a) => buttons.push(FooterButton::Action(a.clone(), variant.action_button_variant())),
        None => {},
    }
    assert(footer_view(buttons@) =~= footer_spec(opt_view(*cancel), opt_view(*action), variant));
    proof {
        let f = footer_view(buttons@);
        if buttons@.len() > 0 {
            assert(f[0] == (match buttons@[0] {
                FooterButton::Cancel(s) => (s@, None),
                FooterButton::Action(s, v) => (s@, Some(v)),
            }));
            assert(f[f.len() - 1] == (match buttons@[buttons@.len() - 1] {
                FooterButton::Cancel(s) => (s@, None),
                FooterButton::Action(s, v) => (s@, Some(v)),
            }));
        }
    }
    buttons
}

/// How the dialog requested by `event` is laid out: its look, how it may be closed, its
/// maximum width (448 pixels unless the request sets one) and its sections.
pub fn dialog_layout(event: &OpenDialogEvent) -> (res: DialogLayout)
    ensures
        res.variant == event.variant,
        res.config == (DialogConfig {
            close_on_click_outside: event.close_on_click_outside,
            close_on_esc: event.close_on_esc,
        }),
        res.max_width == (match event.max_width {
            Some(w) => w,
            None => px_bits(SCALAR_448_BITS),
        }),
        res.sections@.map_values(|s: PanelSection| section_view(s)) == sections_spec(*event),
        exists|i: int|
            0 <= i < res.sections@.len() && res.sections@[i] == PanelSection::ChildrenSlot(
                event.content_padding,
            ),
        forall|i: int|
            0 <= i < res.sections@.len() && (#[trigger] res.sections@[i]) is ChildrenSlot
                ==> res.sections@[i] == PanelSection::ChildrenSlot(event.content_padding),
{
    let config = DialogConfig {
        close_on_click_outside: event.close_on_click_outside,
        close_on_esc: event.close_on_esc,
    };
    let max_width = match event.max_width {
        Some(w) => w,
        None => Val::Px(Scalar { bits: SCALAR_448_BITS }),
    };
    let mut sections: Vec<PanelSection> = Vec::new();
    if event.title.is_some() || event.description.is_some() {
        sections.push(PanelSection::Header(dialog_header(&event.title, &event.description)));
    }
    let slot_index = sections.len();
    sections.push(PanelSection::ChildrenSlot(event.content_padding));
    if event.action.is_some() || event.cancel.is_some() {
        sections.push(
            PanelSection::Footer(dialog_footer(&event.cancel, &event.action, event.variant)),
        );
    }
    if event.has_close_button {
        sections.push(PanelSection::CloseButton);
    }
    assert(sections@.map_values(|s: PanelSection| section_view(s)) =~= sections_spec(*event));
    proof {
        lemma_layout_law(*event);
        let v = sections@.map_values(|s: PanelSection| section_view(s));
        assert(sections@[slot_index as int] == PanelSection::ChildrenSlot(event.content_padding));
        assert forall|i: int|
            0 <= i < sections@.len() && (#[trigger] sections@[i]) is ChildrenSlot implies sections@[i]
            == PanelSection::ChildrenSlot(event.content_padding) by {
            assert(v[i] == section_view(sections@[i]));
            assert(v[i] is ChildrenSlot);
        }
    }
    DialogLayout { variant: event.variant, config, max_width, sections }
}

// ---------------------------------------------------------------------------------------
// Opening and dismissing
// ---------------------------------------------------------------------------------------

/// Whether a requested dialog opens: only when no dialog exists yet.
pub fn can_open_dialog(existing_dialogs: usize) -> (res: bool)
    ensures
        res == (existing_dialogs == 0),
{
    existing_dialogs == 0
}

/// An open dialog that is not being dismissed.
#[derive(PartialEq, Eq, Structural, Clone, Copy, Debug)]
pub struct ActiveDialog {
    pub entity: u64,
    pub config: DialogConfig,
}

/// A change of the interaction state of a dialog's backdrop.
#[derive(PartialEq, Eq, Structural, Clone, Copy, Debug)]
pub struct BackdropInteraction {
    /// Whether the backdrop is now pressed.
    pub pressed: bool,
    /// The dialog that the backdrop belongs to.
    pub dialog: u64,
}

/// The first active dialog that is the entity `e`.
pub open spec fn active_config(active: Seq<ActiveDialog>, e: u64) -> Option<DialogConfig>
    decreases active.len(),
{
    if active.len() == 0 {
        None
    } else if active[0].entity == e {
        Some(active[0].config)
    } else {
        active_config(active.drop_first(), e)
    }
}

fn active_config_exec(active: &Vec<ActiveDialog>, e: u64) -> (res: Option<DialogConfig>)
    ensures
        res == active_config(active@, e),
{
    let mut i: usize = 0;
    assert(active@.skip(0) =~= active@);
    while i < active.len()
        invariant
            i <= active.len(),
            active_config(active@, e) == active_config(active@.skip(i as int), e),
        decreases active.len() - i,
    {
        assert(active@.skip(i as int)[0] == active@[i as int]);
        if active[i].entity == e {
            return Some(active[i].config);
        }
        assert(active@.skip(i as int).drop_first() =~= active@.skip(i + 1));
        i = i + 1;
    }
    None
}

/// Whether a backdrop interaction dismisses its dialog: the backdrop is pressed, its
/// dialog is active and closes on a click outside, and no panel is pressed.
pub open spec fn backdrop_dismisses(
    i: BackdropInteraction,
    active: Seq<ActiveDialog>,
    panel_pressed: bool,
) -> bool {
    &&& i.pressed
    &&& active_config(active, i.dialog) matches Some(c)
    &&& c.close_on_click_outside
    &&& !panel_pressed
}

/// The dialogs dismissed by the backdrop interactions `interactions`, in order.
pub open spec fn backdrop_dismissals_spec(
    interactions: Seq<BackdropInteraction>,
    active: Seq<ActiveDialog>,
    panel_pressed: bool,
) -> Seq<u64>
    decreases interactions.len(),
{
    if interactions.len() == 0 {
        Seq::empty()
    } else {
        let rest = backdrop_dismissals_spec(interactions.drop_last(), active, panel_pressed);
        if backdrop_dismisses(interactions.last(), active, panel_pressed) {
            rest.push(interactions.last().dialog)
        } else {
            rest
        }
    }
}

/// The dialogs to dismiss after the backdrop interactions `interactions`, given the
/// active dialogs and whether any dialog panel is pressed (a press on the panel is not a
/// click outside).
pub fn backdrop_dismissals(
    interactions: &Vec<BackdropInteraction>,
    active: &Vec<ActiveDialog>,
    panel_pressed: bool,
) -> (res: Vec<u64>)
    ensures
        res@ == backdrop_dismissals_spec(interactions@, active@, panel_pressed),
        forall|d: u64|
            #[trigger] res@.contains(d) ==> {
                &&& !panel_pressed
                &&& exists|k: int|
                    0 <= k < interactions@.len() && (#[trigger] interactions@[k]).pressed
                        && interactions@[k].dialog == d
                &&& exists|j: int|
                    0 <= j < active@.len() && (#[trigger] active@[j]).entity == d
                        && active@[j].config.close_on_click_outside
            },
        forall|k: int|
            0 <= k < interactions@.len() && (#[trigger] interactions@[k]).pressed && !panel_pressed
                && (exists|j: int|
                0 <= j < active@.len() && (#[trigger] active@[j]).entity == interactions@[k].dialog)
                && (forall|j: int|
                0 <= j < active@.len() && (#[trigger] active@[j]).entity == interactions@[k].dialog
                    ==> active@[j].config.close_on_click_outside) ==> res@.contains(
                interactions@[k].dialog,
            ),
        res@ == interactions@.filter(
            |it: BackdropInteraction|
                it.pressed && !panel_pressed && active_config(active@, it.dialog) is Some
                    && active_config(active@, it.dialog)->0.close_on_click_outside,
        ).map_values(|it: BackdropInteraction| it.dialog),
{
    proof {
        lemma_backdrop_dismissals_law(interactions@, active@, panel_pressed);
    }
    let mut res: Vec<u64> = Vec::new();
    let mut i: usize = 0;
    assert(interactions@.take(0) =~= Seq::<BackdropInteraction>::empty());
    while i < interactions.len()
        invariant
            i <= interactions.len(),
            res@ == backdrop_dismissals_spec(interactions@.take(i as int), active@, panel_pressed),
        decreases interactions.len() - i,
    {
        let it = interactions[i];
        proof {
            let t = interactions@.take(i + 1);
            assert(t.drop_last() =~= interactions@.take(i as int));
            assert(t.last() == it);
        }
        if it.pressed {
            match active_config_exec(active, it.dialog) {
                Some(c) => {
                    if c.close_on_click_outside && !panel_pressed {
                        res.push(it.dialog);
                    }
                },
                None => {},
            }
        }
        i = i + 1;
    }
    assert(interactions@.take(interactions.len() as int) =~= interactions@);
    res
}

/// Clicks outside dismiss no dialog when a panel is pressed, nor when no active dialog
/// closes on a click outside (as a confirmation dialog does not).
pub proof fn lemma_no_outside_click_dismissal(
    interactions: Seq<BackdropInteraction>,
    active: Seq<ActiveDialog>,
    panel_pressed: bool,
)
    requires
        panel_pressed || forall|i: int|
            0 <= i < active.len() ==> !(#[trigger] active[i]).config.close_on_click_outside,
    ensures
        backdrop_dismissals_spec(interactions, active, panel_pressed) == Seq::<u64>::empty(),
    decreases interactions.len(),
{
    if interactions.len() > 0 {
        lemma_no_outside_click_dismissal(interactions.drop_last(), active, panel_pressed);
        if !panel_pressed {
            lemma_active_config_found(active, interactions.last().dialog);
        }
    }
}

proof fn lemma_active_config_found(active: Seq<ActiveDialog>, e: u64)
    ensures
        active_config(active, e) matches Some(c) ==> exists|i: int|
            0 <= i < active.len() && #[trigger] active[i].config == c,
    decreases active.len(),
{
    if active.len() > 0 {
        if active[0].entity != e {
            lemma_active_config_found(active.drop_first(), e);
            if let Some(c) = active_config(active, e) {
                let i = choose|i: int|
                    0 <= i < active.drop_first().len() && #[trigger] active.drop_first()[i].config
                        == c;
                assert(active[i + 1].config == c);
            }
        } else {
            assert(active[0].config == active_config(active, e)->0);
        }
    }
}

// ---------------------------------------------------------------------------------------
// Laws of dismissal
// ---------------------------------------------------------------------------------------

/// The configuration found for `e` is that of an active dialog that is `e`, and one is
/// found whenever some active dialog is `e`.
proof fn lemma_active_config_facts(active: Seq<ActiveDialog>, e: u64)
    ensures
        active_config(active, e) matches Some(c) ==> exists|j: int|
            0 <= j < active.len() && (#[trigger] active[j]).entity == e && active[j].config == c,
        (exists|j: int| 0 <= j < active.len() && (#[trigger] active[j]).entity == e)
            ==> active_config(active, e) is Some,
    decreases active.len(),
{
    if active.len() > 0 {
        lemma_active_config_facts(active.drop_first(), e);
        if active[0].entity != e {
            if let Some(c) = active_config(active, e) {
                let j = choose|j: int|
                    0 <= j < active.drop_first().len() && (#[trigger] active.drop_first()[j]).entity
                        == e && active.drop_first()[j].config == c;
                assert(active[j + 1] == active.drop_first()[j]);
            }
            if exists|j: int| 0 <= j < active.len() && (#[trigger] active[j]).entity == e {
                let j = choose|j: int| 0 <= j < active.len() && (#[trigger] active[j]).entity == e;
                assert(j != 0);
                assert(active.drop_first()[j - 1] == active[j]);
            }
        } else {
            assert(active[0].entity == e);
        }
    }
}

/// What backdrop interactions dismiss. Every dismissed dialog was pressed on, is an active
/// dialog that closes on a click outside, and no panel is pressed: an interaction that is
/// not a press (a hover, a release) dismisses nothing. Conversely, a press on the backdrop
/// of an active dialog that closes on a click outside dismisses it when no panel is pressed.
pub proof fn lemma_backdrop_dismissals_law(
    interactions: Seq<BackdropInteraction>,
    active: Seq<ActiveDialog>,
    panel_pressed: bool,
)
    ensures
        forall|d: u64|
            #[trigger] backdrop_dismissals_spec(interactions, active, panel_pressed).contains(d)
                ==> {
                &&& !panel_pressed
                &&& exists|k: int|
                    0 <= k < interactions.len() && (#[trigger] interactions[k]).pressed
                        && interactions[k].dialog == d
                &&& exists|j: int|
                    0 <= j < active.len() && (#[trigger] active[j]).entity == d
                        && active[j].config.close_on_click_outside
            },
        forall|k: int|
            0 <= k < interactions.len() && (#[trigger] interactions[k]).pressed && !panel_pressed
                && (exists|j: int|
                0 <= j < active.len() && (#[trigger] active[j]).entity == interactions[k].dialog)
                && (forall|j: int|
                0 <= j < active.len() && (#[trigger] active[j]).entity == interactions[k].dialog
                    ==> active[j].config.close_on_click_outside) ==> backdrop_dismissals_spec(
                interactions,
                active,
                panel_pressed,
            ).contains(interactions[k].dialog),
        backdrop_dismissals_spec(interactions, active, panel_pressed).len() <= interactions.len(),
        backdrop_dismissals_spec(interactions, active, panel_pressed) == interactions.filter(
            |it: BackdropInteraction|
                it.pressed && !panel_pressed && active_config(active, it.dialog) is Some
                    && active_config(active, it.dialog)->0.close_on_click_outside,
        ).map_values(|it: BackdropInteraction| it.dialog),
    decreases interactions.len(),
{
    let p = |it: BackdropInteraction|
        it.pressed && !panel_pressed && active_config(active, it.dialog) is Some && active_config(
            active,
            it.dialog,
        )->0.close_on_click_outside;
    if interactions.len() == 0 {
        assert(interactions.filter(p) =~= Seq::<BackdropInteraction>::empty()) by {
            reveal_with_fuel(Seq::filter, 1);
        }
    }
    if interactions.len() > 0 {
        let prev = interactions.drop_last();
        let last = interactions.last();
        lemma_backdrop_dismissals_law(prev, active, panel_pressed);
        assert(interactions =~= prev.push(last));
        prev.lemma_filter_push(last, p);
        let fp = prev.filter(p);
        assert(p(last) == backdrop_dismisses(last, active, panel_pressed));
        if p(last) {
            assert(fp.push(last).map_values(|it: BackdropInteraction| it.dialog) =~= fp.map_values(
                |it: BackdropInteraction| it.dialog,
            ).push(last.dialog));
        }
        lemma_active_config_facts(active, last.dialog);
        let r = backdrop_dismissals_spec(interactions, active, panel_pressed);
        let rp = backdrop_dismissals_spec(prev, active, panel_pressed);
        assert forall|d: u64| #[trigger] r.contains(d) implies {
            &&& !panel_pressed
            &&& exists|k: int|
                0 <= k < interactions.len() && (#[trigger] interactions[k]).pressed
                    && interactions[k].dialog == d
            &&& exists|j: int|
                0 <= j < active.len() && (#[trigger] active[j]).entity == d
                    && active[j].config.close_on_click_outside
        } by {
            if rp.contains(d) {
                let k = choose|k: int|
                    0 <= k < prev.len() && (#[trigger] prev[k]).pressed && prev[k].dialog == d;
                assert(interactions[k] == prev[k]);
            } else {
                assert(backdrop_dismisses(last, active, panel_pressed));
                assert(r == rp.push(last.dialog));
                assert(d == last.dialog);
                assert(interactions[interactions.len() - 1] == last);
            }
        }
        assert forall|k: int|
            0 <= k < interactions.len() && (#[trigger] interactions[k]).pressed && !panel_pressed
                && (exists|j: int|
                0 <= j < active.len() && (#[trigger] active[j]).entity == interactions[k].dialog)
                && (forall|j: int|
                0 <= j < active.len() && (#[trigger] active[j]).entity == interactions[k].dialog
                    ==> active[j].config.close_on_click_outside) implies r.contains(
            interactions[k].dialog,
        ) by {
            if k < interactions.len() - 1 {
                assert(prev[k] == interactions[k]);
                let d = interactions[k].dialog;
                assert(rp.contains(d));
                let m = choose|m: int| 0 <= m < rp.len() && rp[m] == d;
                if backdrop_dismisses(last, active, panel_pressed) {
                    assert(r[m] == d);
                }
            } else {
                assert(interactions[k] == last);
                lemma_active_config_facts(active, last.dialog);
                let c = active_config(active, last.dialog)->0;
                let j = choose|j: int|
                    0 <= j < active.len() && (#[trigger] active[j]).entity == last.dialog
                        && active[j].config == c;
                assert(c.close_on_click_outside);
                assert(r == rp.push(last.dialog));
                assert(r[r.len() - 1] == last.dialog);
            }
        }
    }
}

/// What Escape dismisses: exactly the dialogs that are active and close on Escape.
pub proof fn lemma_esc_dismissals_law(active: Seq<ActiveDialog>)
    ensures
        forall|d: u64|
            #[trigger] esc_dismissals_spec(active).contains(d) <==> exists|j: int|
                0 <= j < active.len() && (#[trigger] active[j]).entity == d
                    && active[j].config.close_on_esc,
        esc_dismissals_spec(active).len() <= active.len(),
        esc_dismissals_spec(active) == active.filter(|d: ActiveDialog| d.config.close_on_esc).map_values(
            |d: ActiveDialog| d.entity,
        ),
    decreases active.len(),
{
    if active.len() == 0 {
        assert(active.filter(|d: ActiveDialog| d.config.close_on_esc) =~= Seq::<ActiveDialog>::empty())
            by {
            reveal_with_fuel(Seq::filter, 1);
        }
    } else {
        let prev = active.drop_last();
        let last = active.last();
        lemma_esc_dismissals_law(prev);
        let r = esc_dismissals_spec(active);
        let rp = esc_dismissals_spec(prev);
        assert(active =~= prev.push(last));
        prev.lemma_filter_push(last, |d: ActiveDialog| d.config.close_on_esc);
        let fp = prev.filter(|d: ActiveDialog| d.config.close_on_esc);
        if last.config.close_on_esc {
            assert(fp.push(last).map_values(|d: ActiveDialog| d.entity) =~= fp.map_values(
                |d: ActiveDialog| d.entity,
            ).push(last.entity));
        }
        assert forall|d: u64| #[trigger] r.contains(d) <==> exists|j: int|
            0 <= j < active.len() && (#[trigger] active[j]).entity == d
                && active[j].config.close_on_esc by {
            if r.contains(d) {
                if rp.contains(d) {
                    let j = choose|j: int|
                        0 <= j < prev.len() && (#[trigger] prev[j]).entity == d
                            && prev[j].config.close_on_esc;
                    assert(active[j] == prev[j]);
                } else {
                    assert(r == rp.push(last.entity));
                    assert(active[active.len() - 1] == last);
                }
            }
            if exists|j: int|
                0 <= j < active.len() && (#[trigger] active[j]).entity == d
                    && active[j].config.close_on_esc {
                let j = choose|j: int|
                    0 <= j < active.len() && (#[trigger] active[j]).entity == d
                        && active[j].config.close_on_esc;
                if j < active.len() - 1 {
                    assert(prev[j] == active[j]);
                    assert(rp.contains(d));
                    let m = choose|m: int| 0 <= m < rp.len() && rp[m] == d;
                    if last.config.close_on_esc {
                        assert(r[m] == d);
                    }
                } else {
                    assert(active[j] == last);
                    assert(r == rp.push(last.entity));
                    assert(r[r.len() - 1] == d);
                }
            }
        }
    }
}

/// The active dialogs that Escape closes, in order.
pub open spec fn esc_dismissals_spec(active: Seq<ActiveDialog>) -> Seq<u64>
    decreases active.len(),
{
    if active.len() == 0 {
        Seq::empty()
    } else {
        let rest = esc_dismissals_spec(active.drop_last());
        if active.last().config.close_on_esc {
            rest.push(active.last().entity)
        } else {
            rest
        }
    }
}

/// The dialogs to dismiss on a key press: when Escape was just pressed, every active
/// dialog that closes on Escape; otherwise none.
pub fn esc_dismissals(esc_just_pressed: bool, active: &Vec<ActiveDialog>) -> (res: Vec<u64>)
    ensures
        res@ == (if esc_just_pressed {
            esc_dismissals_spec(active@)
        } else {
            Seq::empty()
        }),
        forall|d: u64|
            #[trigger] res@.contains(d) <==> esc_just_pressed && exists|j: int|
                0 <= j < active@.len() && (#[trigger] active@[j]).entity == d
                    && active@[j].config.close_on_esc,
        esc_just_pressed ==> res@ == active@.filter(|d: ActiveDialog| d.config.close_on_esc).map_values(
            |d: ActiveDialog| d.entity,
        ),
        !esc_just_pressed ==> res@.len() == 0,
{
    proof {
        lemma_esc_dismissals_law(active@);
    }
    let mut res: Vec<u64> = Vec::new();
    if !esc_just_pressed {
        return res;
    }
    let mut i: usize = 0;
    assert(active@.take(0) =~= Seq::<ActiveDialog>::empty());
    while i < active.len()
        invariant
            i <= active.len(),
            res@ == esc_dismissals_spec(active@.take(i as int)),
        decreases active.len() - i,
    {
        proof {
            let t = active@.take(i + 1);
            assert(t.drop_last() =~= active@.take(i as int));
            assert(t.last() == active@[i as int]);
        }
        if active[i].config.close_on_esc {
            res.push(active[i].entity);
        }
        i = i + 1;
    }
    assert(active@.take(active.len() as int) =~= active@);
    res
}

/// The dialogs to dismiss on a request to close dialogs: every active dialog.
pub fn close_dismissals(active: &Vec<ActiveDialog>) -> (res: Vec<u64>)
    ensures
        res@ == active@.map_values(|d: ActiveDialog| d.entity),
{
    let mut res: Vec<u64> = Vec::new();
    let mut i: usize = 0;
    while i < active.len()
        invariant
            i <= active.len(),
            res@ == active@.take(i as int).map_values(|d: ActiveDialog| d.entity),
        decreases active.len() - i,
    {
        res.push(active[i].entity);
        proof {
            assert(active@.take(i + 1).map_values(|d: ActiveDialog| d.entity) =~= active@.take(
                i as int,
            ).map_values(|d: ActiveDialog| d.entity).push(active@[i as int].entity));
        }
        i = i + 1;
    }
    assert(active@.take(active.len() as int) =~= active@);
    res
}

/// The button of a dialog that was clicked.
#[derive(PartialEq, Eq, Structural, Clone, Copy, Debug)]
pub enum DialogButton {
    Action,
    Cancel,
    Close,
}

/// What a click on a dialog button does.
#[derive(PartialEq, Eq, Structural, Clone, Copy, Debug)]
pub struct ButtonClickOutcome {
    /// The dialog to dismiss.
    pub dismiss: Option<u64>,
    /// The dialog whose action is confirmed.
    pub action: Option<u64>,
}

/// What a click on `button`, whose parent is `button_parent`, does: the nearest active
/// dialog above the button is dismissed, and a click on the action button confirms that
/// dialog's action.
pub fn dialog_button_click(
    tree: &EntityTree,
    active_dialogs: &Vec<u64>,
    button: DialogButton,
    button_parent: u64,
) -> (res: ButtonClickOutcome)
    ensures
        res.dismiss == nearest_in(tree@, active_dialogs@, button_parent, tree.nodes.len() as nat),
        res.action == (if button == DialogButton::Action {
            res.dismiss
        } else {
            None
        }),
{
    let dismiss = tree.nearest_ancestor_in(active_dialogs, button_parent);
    let action = match button {
        DialogButton::Action => dismiss,
        _ => None,
    };
    ButtonClickOutcome { dismiss, action }
}

/// The dialogs whose closing animation ended and that are being dismissed: they are
/// removed.
pub fn dialogs_to_despawn(finished: &Vec<u64>, dismissing: &Vec<u64>) -> (res: Vec<u64>)
    ensures
        res@ == finished@.filter(|e: u64| dismissing@.contains(e)),
{
    let mut res: Vec<u64> = Vec::new();
    let mut i: usize = 0;
    assert(finished@.take(0) =~= Seq::<u64>::empty());
    assert(finished@.take(0).filter(|e: u64| dismissing@.contains(e)) =~= Seq::<u64>::empty())
        by {
        reveal_with_fuel(Seq::filter, 1);
    }
    while i < finished.len()
        invariant
            i <= finished.len(),
            res@ == finished@.take(i as int).filter(|e: u64| dismissing@.contains(e)),
        decreases finished.len() - i,
    {
        let e: u64 = finished[i];
        proof {
            assert(finished@.take(i + 1) =~= finished@.take(i as int).push(e));
            finished@.take(i as int).lemma_filter_push(e, |e: u64| dismissing@.contains(e));
        }
        if vec_contains(dismissing, e) {
            res.push(e);
        }
        i = i + 1;
    }
    assert(finished@.take(finished.len() as int) =~= finished@);
    res
}

/// Whether the content slot of a dialog is shown: only when it has content.
pub fn children_slot_visible(child_count: usize) -> (res: bool)
    ensures
        res == (child_count > 0),
{
    child_count > 0
}

} // verus!
