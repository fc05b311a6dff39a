//! The detail block for the selected item.
use vstd::prelude::*;
use vstd::string::StringExecFns;
use crate::item::CatalogItem;
use crate::text::{lines_view, span, span_str, spans_view, split_lines, strings_view, text_lines, Span, Tone};

verus! {

pub type StyledLine = Seq<(Seq<char>, Tone)>;

/// What `timeago::Formatter::new().convert` yields for an elapsed time in seconds.
pub uninterp spec fn time_ago_text(elapsed_secs: u64) -> Seq<char>;

/// Relies on `timeago::Formatter::convert` with the English defaults of
/// `Formatter::new`: a human-readable rendering of an elapsed time ("5 days ago"),
/// which depends on the duration alone.
#[verifier::external_body]
fn time_ago(elapsed_secs: u64) -> (r: String)
    ensures
        r@ == time_ago_text(elapsed_secs),
{
    timeago::Formatter::new().convert(std::time::Duration::from_secs(elapsed_secs))
}

/// Seconds from `since` to `now`; a time in the future counts as no time ago.
pub open spec fn elapsed(since: u64, now: u64) -> u64 {
    if now >= since { (now - since) as u64 } else { 0 }
}

pub open spec fn field_line(header: Seq<char>, value: Seq<char>) -> StyledLine {
    seq![(header, Tone::Header), (value, Tone::Plain)]
}

pub open spec fn optional_field_line(header: Seq<char>, value: Option<String>) -> Seq<StyledLine> {
    match value {
        Some(v) => seq![field_line(header, v@)],
        None => Seq::empty(),
    }
}

pub open spec fn path_header() -> Seq<char> { "Path:          "@ }
pub open spec fn game_header() -> Seq<char> { "Game Name:     "@ }
pub open spec fn rom_header() -> Seq<char> { "Rom Path:      "@ }
pub open spec fn b2s_header() -> Seq<char> { "B2S Path:      "@ }
pub open spec fn modified_header() -> Seq<char> { "Last Modified: "@ }

/// The game name, where it is present and not empty.
pub open spec fn present_game_name(item: CatalogItem) -> Option<String> {
    match item.game_name {
        Some(g) => if g@.len() > 0 { Some(g) } else { None },
        None => None,
    }
}

pub open spec fn warning_line(w: Seq<char>) -> StyledLine {
    seq![("⚠️ "@ + w, Tone::Warning)]
}

/// The description line by line; an empty description is one empty line.
pub open spec fn description_lines(item: CatalogItem) -> Seq<StyledLine> {
    match item.description {
        Some(d) => if d@.len() == 0 {
            seq![seq![(d@, Tone::Plain)]]
        } else {
            text_lines(d@).map_values(|l: Seq<char>| seq![(l, Tone::Plain)])
        },
        None => Seq::empty(),
    }
}

/// The detail block of an item, line by line.
pub open spec fn detail_lines(item: CatalogItem, available: Seq<String>, now: u64) -> Seq<StyledLine> {
    seq![seq![(item.label(), Tone::Title)], Seq::empty()]
        + item.warning_texts(available).map_values(|w: Seq<char>| warning_line(w))
        + seq![field_line(path_header(), item.path@)]
        + optional_field_line(game_header(), present_game_name(item))
        + optional_field_line(rom_header(), item.primary_resource)
        + optional_field_line(b2s_header(), item.secondary_resource)
        + seq![field_line(modified_header(), time_ago_text(elapsed(item.last_modified, now)))]
        + seq![Seq::empty()]
        + description_lines(item)
}

/// The block shown when no item is selected.
pub open spec fn placeholder_lines() -> Seq<StyledLine> {
    seq![seq![("No item selected"@, Tone::Italic)]]
}

/// Some line of `lines` opens with `header` as a field header.
pub open spec fn has_field(lines: Seq<StyledLine>, header: Seq<char>) -> bool {
    exists|i: int| 0 <= i < lines.len() && (#[trigger] lines[i]).len() > 0 && lines[i][0] == (header, Tone::Header)
}

proof fn lemma_has_field_concat(a: Seq<StyledLine>, b: Seq<StyledLine>, header: Seq<char>)
    ensures
        has_field(a + b, header) == (has_field(a, header) || has_field(b, header)),
{
    let ab = a + b;
    if has_field(ab, header) {
        let i = choose|i: int| 0 <= i < ab.len() && (#[trigger] ab[i]).len() > 0 && ab[i][0] == (header, Tone::Header);
        if i < a.len() {
            assert(a[i] == ab[i]);
        } else {
            assert(b[i - a.len()] == ab[i]);
        }
    }
    if has_field(a, header) {
        let i = choose|i: int| 0 <= i < a.len() && (#[trigger] a[i]).len() > 0 && a[i][0] == (header, Tone::Header);
        assert(ab[i] == a[i]);
    }
    if has_field(b, header) {
        let i = choose|i: int| 0 <= i < b.len() && (#[trigger] b[i]).len() > 0 && b[i][0] == (header, Tone::Header);
        assert(ab[i + a.len()] == b[i]);
    }
}

proof fn lemma_field_line_has(h: Seq<char>, v: Seq<char>, header: Seq<char>)
    ensures
        has_field(seq![field_line(h, v)], header) == (h == header),
{
    if h == header {
        assert(seq![field_line(h, v)][0][0] == (header, Tone::Header));
    }
}

proof fn lemma_optional_field_has(h: Seq<char>, v: Option<String>, header: Seq<char>)
    ensures
        has_field(optional_field_line(h, v), header) == (h == header && v is Some),
{
    if let Some(x) = v {
        lemma_field_line_has(h, x@, header);
    }
}

proof fn lemma_headers_distinct()
    ensures
        path_header() != game_header(),
        path_header() != rom_header(),
        path_header() != b2s_header(),
        path_header() != modified_header(),
        game_header() != rom_header(),
        game_header() != b2s_header(),
        game_header() != modified_header(),
        rom_header() != b2s_header(),
        rom_header() != modified_header(),
        b2s_header() != modified_header(),
{
    reveal_strlit("Path:          ");
    reveal_strlit("Game Name:     ");
    reveal_strlit("Rom Path:      ");
    reveal_strlit("B2S Path:      ");
    reveal_strlit("Last Modified: ");
    assert(path_header()[0] == 'P');
    assert(game_header()[0] == 'G');
    assert(rom_header()[0] == 'R');
    assert(b2s_header()[0] == 'B');
    assert(modified_header()[0] == 'L');
}

/// The detail block always has a path line and a last-modified line, and it
/// has a game name, rom or backglass line exactly when the item has that field.
/// Besides the five fixed lines (title, path, last modified and two blanks) it
/// holds one line per warning and one per field present, and no other.
pub proof fn lemma_detail_fields(item: CatalogItem, available: Seq<String>, now: u64)
    ensures
        has_field(detail_lines(item, available, now), path_header()),
        has_field(detail_lines(item, available, now), modified_header()),
        has_field(detail_lines(item, available, now), game_header()) <==> present_game_name(item) is Some,
        has_field(detail_lines(item, available, now), rom_header()) <==> item.primary_resource is Some,
        has_field(detail_lines(item, available, now), b2s_header()) <==> item.secondary_resource is Some,
        detail_lines(item, available, now).len() == 5 + item.warning_texts(available).len()
            + (if present_game_name(item) is Some { 1int } else { 0int })
            + (if item.primary_resource is Some { 1int } else { 0int })
            + (if item.secondary_resource is Some { 1int } else { 0int })
            + description_lines(item).len(),
        item.description is None ==> description_lines(item).len() == 0,
        item.description is Some ==> description_lines(item).len() >= 1,
{
    lemma_headers_distinct();
    let head: Seq<StyledLine> = seq![seq![(item.label(), Tone::Title)], Seq::empty()];
    let warns = item.warning_texts(available).map_values(|w: Seq<char>| warning_line(w));
    let path = seq![field_line(path_header(), item.path@)];
    let game = optional_field_line(game_header(), present_game_name(item));
    let rom = optional_field_line(rom_header(), item.primary_resource);
    let b2s = optional_field_line(b2s_header(), item.secondary_resource);
    let modified = seq![field_line(modified_header(), time_ago_text(elapsed(item.last_modified, now)))];
    let gap: Seq<StyledLine> = seq![Seq::empty()];
    let desc = description_lines(item);
    let d = detail_lines(item, available, now);
    assert(d == head + warns + path + game + rom + b2s + modified + gap + desc);
    let headers = seq![path_header(), game_header(), rom_header(), b2s_header(), modified_header()];
    assert forall|j: int| 0 <= j < 5 implies {
        let h = #[trigger] headers[j];
        &&& !has_field(head, h)
        &&& !has_field(warns, h)
        &&& !has_field(gap, h)
        &&& !has_field(desc, h)
    } by {
        let h = headers[j];
        if has_field(head, h) {
            let i = choose|i: int| 0 <= i < head.len() && (#[trigger] head[i]).len() > 0 && head[i][0] == (h, Tone::Header);
        }
        if has_field(warns, h) {
            let i = choose|i: int| 0 <= i < warns.len() && (#[trigger] warns[i]).len() > 0 && warns[i][0] == (h, Tone::Header);
        }
        if has_field(gap, h) {
            let i = choose|i: int| 0 <= i < gap.len() && (#[trigger] gap[i]).len() > 0 && gap[i][0] == (h, Tone::Header);
        }
        if has_field(desc, h) {
            let i = choose|i: int| 0 <= i < desc.len() && (#[trigger] desc[i]).len() > 0 && desc[i][0] == (h, Tone::Header);
        }
    }
    assert forall|j: int| 0 <= j < 5 implies {
        let h = #[trigger] headers[j];
        has_field(d, h) == (
            (h == path_header()) || (h == modified_header())
            || (h == game_header() && present_game_name(item) is Some)
            || (h == rom_header() && item.primary_resource is Some)
            || (h == b2s_header() && item.secondary_resource is Some))
    } by {
        let h = headers[j];
        lemma_has_field_concat(head, warns, h);
        lemma_has_field_concat(head + warns, path, h);
        lemma_has_field_concat(head + warns + path, game, h);
        lemma_has_field_concat(head + warns + path + game, rom, h);
        lemma_has_field_concat(head + warns + path + game + rom, b2s, h);
        lemma_has_field_concat(head + warns + path + game + rom + b2s, modified, h);
        lemma_has_field_concat(head + warns + path + game + rom + b2s + modified, gap, h);
        lemma_has_field_concat(head + warns + path + game + rom + b2s + modified + gap, desc, h);
        lemma_field_line_has(path_header(), item.path@, h);
        lemma_optional_field_has(game_header(), present_game_name(item), h);
        lemma_optional_field_has(rom_header(), item.primary_resource, h);
        lemma_optional_field_has(b2s_header(), item.secondary_resource, h);
        lemma_field_line_has(modified_header(), time_ago_text(elapsed(item.last_modified, now)), h);
    }
    assert(headers[0] == path_header());
    assert(headers[1] == game_header());
    assert(headers[2] == rom_header());
    assert(headers[3] == b2s_header());
    assert(headers[4] == modified_header());
}

fn push_line(lines: &mut Vec<Vec<Span>>, line: Vec<Span>)
    ensures
        lines_view(final(lines)@) == lines_view(old(lines)@).push(spans_view(line@)),
{
    let ghost before = lines@;
    lines.push(line);
    assert(lines_view(lines@) =~= lines_view(before).push(spans_view(line@)));
}

fn field(header: &str, value: String) -> (r: Vec<Span>)
    ensures
        spans_view(r@) == field_line(header@, value@),
{
    let mut r: Vec<Span> = Vec::new();
    r.push(span_str(header, Tone::Header));
    r.push(span(value, Tone::Plain));
    assert(spans_view(r@) =~= field_line(header@, value@));
    r
}

fn push_optional_field(lines: &mut Vec<Vec<Span>>, header: &str, value: &Option<String>)
    ensures
        lines_view(final(lines)@) == lines_view(old(lines)@) + optional_field_line(header@, *value),
{
    match value {
        Some(v) => {
            push_line(lines, field(header, v.clone()));
            assert(lines_view(lines@) =~= lines_view(old(lines)@) + optional_field_line(header@, *value));
        },
        None => {
            assert(lines_view(lines@) =~= lines_view(old(lines)@) + optional_field_line(header@, *value));
        },
    }
}

fn single(text: String, tone: Tone) -> (r: Vec<Span>)
    ensures
        spans_view(r@) == seq![(text@, tone)],
{
    let mut r: Vec<Span> = Vec::new();
    r.push(span(text, tone));
    assert(spans_view(r@) =~= seq![(text@, tone)]);
    r
}

fn blank() -> (r: Vec<Span>)
    ensures
        spans_view(r@) == Seq::<(Seq<char>, Tone)>::empty(),
{
    let r: Vec<Span> = Vec::new();
    assert(spans_view(r@) =~= Seq::<(Seq<char>, Tone)>::empty());
    r
}

fn present_game(item: &CatalogItem) -> (r: Option<String>)
    ensures
        r == present_game_name(*item),
{
    match &item.game_name {
        Some(g) => {
            if g.as_str().unicode_len() > 0 {
                Some(g.clone())
            } else {
                None
            }
        },
        None => None,
    }
}

/// The detail block of `item`; `now` is the current time in seconds since the
/// Unix epoch, from which the age of the file is told.
pub fn detail_text(item: &CatalogItem, available: &Vec<String>, now: u64) -> (r: Vec<Vec<Span>>)
    ensures
        lines_view(r@) == detail_lines(*item, available@, now),
{
    let mut r: Vec<Vec<Span>> = Vec::new();
    push_line(&mut r, single(item.display_label(), Tone::Title));
    push_line(&mut r, blank());
    let ghost head = lines_view(r@);
    assert(head =~= seq![seq![(item.label(), Tone::Title)], Seq::<(Seq<char>, Tone)>::empty()]);
    let warnings = item.warnings(available);
    let ghost texts = warnings@.map_values(|w: String| w@);
    let mut i: usize = 0;
    while i < warnings.len()
        invariant
            i <= warnings@.len(),
            texts == warnings@.map_values(|w: String| w@),
            lines_view(r@) == head + texts.take(i as int).map_values(|w: Seq<char>| warning_line(w)),
        decreases warnings@.len() - i,
    {
        let w = String::from_str("⚠️ ").concat(warnings[i].as_str());
        push_line(&mut r, single(w, Tone::Warning));
        assert(texts.take(i + 1) =~= texts.take(i as int).push(texts[i as int]));
        assert(texts.take(i + 1).map_values(|w: Seq<char>| warning_line(w))
            =~= texts.take(i as int).map_values(|w: Seq<char>| warning_line(w)).push(warning_line(texts[i as int])));
        i = i + 1;
    }
    assert(texts.take(i as int) =~= texts);
    push_line(&mut r, field("Path:          ", item.path.clone()));
    let game = present_game(item);
    push_optional_field(&mut r, "Game Name:     ", &game);
    push_optional_field(&mut r, "Rom Path:      ", &item.primary_resource);
    push_optional_field(&mut r, "B2S Path:      ", &item.secondary_resource);
    let age: u64 = if now >= item.last_modified { now - item.last_modified } else { 0 };
    push_line(&mut r, field("Last Modified: ", time_ago(age)));
    push_line(&mut r, blank());
    let ghost before_description = lines_view(r@);
    match &item.description {
        Some(d) => {
            if d.as_str().unicode_len() == 0 {
                push_line(&mut r, single(d.clone(), Tone::Plain));
            } else {
                let parts = split_lines(d.as_str());
                let ghost ls = strings_view(parts@);
                let mut k: usize = 0;
                while k < parts.len()
                    invariant
                        k <= parts@.len(),
                        ls == strings_view(parts@),
                        lines_view(r@) == before_description + ls.take(k as int).map_values(|l: Seq<char>| seq![(l, Tone::Plain)]),
                    decreases parts@.len() - k,
                {
                    push_line(&mut r, single(parts[k].clone(), Tone::Plain));
                    assert(ls.take(k + 1) =~= ls.take(k as int).push(ls[k as int]));
                    assert(ls.take(k + 1).map_values(|l: Seq<char>| seq![(l, Tone::Plain)])
                        =~= ls.take(k as int).map_values(|l: Seq<char>| seq![(l, Tone::Plain)]).push(seq![(ls[k as int], Tone::Plain)]));
                    k = k + 1;
                }
                assert(ls.take(k as int) =~= ls);
            }
        },
        None => {},
    }
    assert(lines_view(r@) =~= detail_lines(*item, available@, now));
    r
}

/// The block shown when no item is selected.
pub fn placeholder_text() -> (r: Vec<Vec<Span>>)
    ensures
        lines_view(r@) == placeholder_lines(),
{
    let mut r: Vec<Vec<Span>> = Vec::new();
    push_line(&mut r, single(String::from_str("No item selected"), Tone::Italic));
    assert(lines_view(r@) =~= placeholder_lines());
    r
}

} // verus!
