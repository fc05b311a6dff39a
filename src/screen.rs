//! What one frame shows: the list rows, the detail block and the footer, with
//! the regions they are painted in.
use vstd::prelude::*;
use vstd::string::StringExecFns;
use crate::detail::{detail_lines, detail_text, placeholder_lines, placeholder_text, StyledLine};
use crate::item::CatalogItem;
use crate::layout::{screen_regions, split_screen, Region, Regions};
use crate::selection::{SelectionState, SortMode};
use crate::text::{lines_view, span_str, spans_view, Span, Tone};

verus! {

/// A key, or keys, and what pressing them does.
pub struct KeyBinding {
    pub keys: String,
    pub description: String,
}

impl View for KeyBinding {
    type V = (Seq<char>, Seq<char>);

    open spec fn view(&self) -> (Seq<char>, Seq<char>) {
        (self.keys@, self.description@)
    }
}

pub open spec fn bindings_view(b: Seq<KeyBinding>) -> Seq<(Seq<char>, Seq<char>)> {
    b.map_values(|k: KeyBinding| k@)
}

/// The bindings the footer lists, in order.
pub open spec fn binding_list() -> Seq<(Seq<char>, Seq<char>)> {
    seq![("↑/↓"@, "select"@), ("s"@, "sort"@), ("q"@, "quit"@)]
}

fn binding(keys: &str, description: &str) -> (r: KeyBinding)
    ensures
        r@ == (keys@, description@),
{
    KeyBinding { keys: String::from_str(keys), description: String::from_str(description) }
}

/// The key bindings, in the order the footer shows them.
pub fn key_bindings() -> (r: Vec<KeyBinding>)
    ensures
        bindings_view(r@) == binding_list(),
{
    let r = vec![binding("↑/↓", "select"), binding("s", "sort"), binding("q", "quit")];
    assert(bindings_view(r@) =~= binding_list());
    r
}

/// One binding as the footer shows it: `[keys → description]`.
pub open spec fn binding_spans(b: (Seq<char>, Seq<char>)) -> Seq<(Seq<char>, Tone)> {
    seq![("["@, Tone::Decoration), (b.0, Tone::KeyLabel), (" → "@, Tone::Decoration), (b.1, Tone::Plain), ("]"@, Tone::Decoration)]
}

/// The bindings one after the other, a single space between two of them.
pub open spec fn footer_spans(b: Seq<(Seq<char>, Seq<char>)>) -> Seq<(Seq<char>, Tone)>
    decreases b.len(),
{
    if b.len() == 0 {
        Seq::empty()
    } else if b.len() == 1 {
        binding_spans(b[0])
    } else {
        footer_spans(b.drop_last()) + seq![(" "@, Tone::Plain)] + binding_spans(b.last())
    }
}

fn push_span(line: &mut Vec<Span>, s: Span)
    ensures
        spans_view(final(line)@) == spans_view(old(line)@).push(s@),
{
    let ghost before = line@;
    line.push(s);
    assert(spans_view(line@) =~= spans_view(before).push(s@));
}

/// The footer line for `bindings`.
pub fn footer_line(bindings: &Vec<KeyBinding>) -> (r: Vec<Span>)
    ensures
        spans_view(r@) == footer_spans(bindings_view(bindings@)),
{
    let ghost b = bindings_view(bindings@);
    let mut r: Vec<Span> = Vec::new();
    let mut i: usize = 0;
    assert(spans_view(r@) =~= footer_spans(b.take(0)));
    while i < bindings.len()
        invariant
            i <= bindings@.len(),
            b == bindings_view(bindings@),
            spans_view(r@) == footer_spans(b.take(i as int)),
        decreases bindings@.len() - i,
    {
        let ghost prev = spans_view(r@);
        if i > 0 {
            push_span(&mut r, span_str(" ", Tone::Plain));
        }
        push_span(&mut r, span_str("[", Tone::Decoration));
        push_span(&mut r, span_str(bindings[i].keys.as_str(), Tone::KeyLabel));
        push_span(&mut r, span_str(" → ", Tone::Decoration));
        push_span(&mut r, span_str(bindings[i].description.as_str(), Tone::Plain));
        push_span(&mut r, span_str("]", Tone::Decoration));
        assert(b.take(i + 1).drop_last() =~= b.take(i as int));
        assert(b.take(i + 1).last() == b[i as int]);
        if i > 0 {
            assert(spans_view(r@) =~= prev + seq![(" "@, Tone::Plain)] + binding_spans(b[i as int]));
        } else {
            assert(spans_view(r@) =~= binding_spans(b[i as int]));
        }
        i = i + 1;
    }
    assert(b.take(i as int) =~= b);
    r
}

/// The word the list's title gives for an order.
pub open spec fn sort_name(mode: SortMode) -> Seq<char> {
    match mode {
        SortMode::ByName => "Alphabetical"@,
        SortMode::ByLastModified => "Last Modified"@,
    }
}

pub open spec fn list_title_spans(mode: SortMode) -> Seq<(Seq<char>, Tone)> {
    seq![("Tables"@, Tone::Plain), (" ("@ + sort_name(mode) + ") "@, Tone::Dim)]
}

/// The title of the list, which names its order.
pub fn list_title(mode: SortMode) -> (r: Vec<Span>)
    ensures
        spans_view(r@) == list_title_spans(mode),
{
    let name = match mode {
        SortMode::ByName => String::from_str("Alphabetical"),
        SortMode::ByLastModified => String::from_str("Last Modified"),
    };
    let dim = String::from_str(" (").concat(name.as_str()).concat(") ");
    let mut r: Vec<Span> = Vec::new();
    push_span(&mut r, span_str("Tables", Tone::Plain));
    push_span(&mut r, Span { text: dim, tone: Tone::Dim });
    assert(spans_view(r@) =~= list_title_spans(mode));
    r
}

/// Everything one frame shows.
pub struct Screen {
    pub regions: Regions,
    pub list_title: Vec<Span>,
    /// One label per item, in list order.
    pub rows: Vec<Vec<Span>>,
    pub detail: Vec<Vec<Span>>,
    pub footer: Vec<Span>,
}

/// The detail pane: the selected item's block, or the placeholder.
pub open spec fn detail_pane(state: SelectionState, available: Seq<String>, now: u64) -> Seq<StyledLine> {
    match state.cursor {
        Some(c) => detail_lines(state.items@[c as int], available, now),
        None => placeholder_lines(),
    }
}

/// Composes the frame for `state` in `area`, with the resources in `available`
/// and `now` in seconds since the Unix epoch.
pub fn compose_screen(state: &SelectionState, available: &Vec<String>, now: u64, area: Region) -> (r: Screen)
    requires
        state.wf(),
    ensures
        r.regions == screen_regions(area),
        spans_view(r.list_title@) == list_title_spans(state.sort_mode),
        r.rows@.len() == state.items@.len(),
        forall|i: int| 0 <= i < r.rows@.len() ==> spans_view((#[trigger] r.rows@[i])@) == state.items@[i].label_spans(),
        lines_view(r.detail@) == detail_pane(*state, available@, now),
        spans_view(r.footer@) == footer_spans(binding_list()),
{
    let mut rows: Vec<Vec<Span>> = Vec::new();
    let mut i: usize = 0;
    while i < state.items.len()
        invariant
            i <= state.items@.len(),
            rows@.len() == i,
            forall|k: int| 0 <= k < i ==> spans_view((#[trigger] rows@[k])@) == state.items@[k].label_spans(),
        decreases state.items@.len() - i,
    {
        rows.push(state.items[i].label_line());
        i = i + 1;
    }
    let detail = match state.selected() {
        Some(item) => detail_text(item, available, now),
        None => placeholder_text(),
    };
    let bindings = key_bindings();
    Screen {
        regions: split_screen(area),
        list_title: list_title(state.sort_mode),
        rows,
        detail,
        footer: footer_line(&bindings),
    }
}

} // verus!
