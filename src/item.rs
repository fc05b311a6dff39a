//! Catalog items, their list labels and their missing-resource warnings.
use vstd::prelude::*;
use vstd::string::StringExecFns;
use crate::text::{capitalize_first_letter, capitalized, line_chars, span, span_str, spans_view, Span, Tone};

verus! {

/// One browsable table file, as the indexer describes it.
pub struct CatalogItem {
    /// Where the file lies; the label is built from its stem.
    pub path: String,
    /// The human-readable name from the file's metadata; empty counts as absent.
    pub display_name: Option<String>,
    /// The game the table belongs to.
    pub game_name: Option<String>,
    /// The rom the table depends on.
    pub primary_resource: Option<String>,
    /// The backglass image the table depends on.
    pub secondary_resource: Option<String>,
    /// Seconds since the Unix epoch.
    pub last_modified: u64,
    pub description: Option<String>,
}

/// What `Path::file_stem` yields for a path.
pub uninterp spec fn file_stem_of(path: Seq<char>) -> Option<Seq<char>>;

/// Relies on `std::path::Path::file_stem`: the file name without its extension,
/// or nothing where the path has no file name. A stem of a `str` is valid UTF-8.
#[verifier::external_body]
fn path_file_stem(path: &str) -> (r: Option<String>)
    ensures
        match r {
            Some(s) => file_stem_of(path@) == Some(s@),
            None => file_stem_of(path@) is None,
        },
{
    std::path::Path::new(path).file_stem().and_then(|s| s.to_str()).map(|s| s.to_string())
}

/// The stem of a path, empty where the path has none.
pub open spec fn stem_of(path: Seq<char>) -> Seq<char> {
    match file_stem_of(path) {
        Some(s) => s,
        None => Seq::empty(),
    }
}

pub fn file_stem(path: &str) -> (r: String)
    ensures
        r@ == stem_of(path@),
{
    match path_file_stem(path) {
        Some(s) => s,
        None => String::new(),
    }
}

impl CatalogItem {
    /// The metadata name, where it is present and not empty.
    pub open spec fn named(&self) -> Option<Seq<char>> {
        match self.display_name {
            Some(n) => if n@.len() > 0 { Some(n@) } else { None },
            None => None,
        }
    }

    pub open spec fn stem(&self) -> Seq<char> {
        stem_of(self.path@)
    }

    /// The label as plain text.
    pub open spec fn label(&self) -> Seq<char> {
        match self.named() {
            Some(n) => capitalized(n) + " "@ + self.stem(),
            None => self.stem(),
        }
    }

    /// The label as styled spans: the stem is dimmed after a metadata name.
    pub open spec fn label_spans(&self) -> Seq<(Seq<char>, Tone)> {
        match self.named() {
            Some(n) => seq![(capitalized(n), Tone::Plain), (" "@, Tone::Plain), (self.stem(), Tone::Dim)],
            None => seq![(self.stem(), Tone::Plain)],
        }
    }

    /// The label of the item as plain text.
    pub fn display_label(&self) -> (r: String)
        ensures
            r@ == self.label(),
            self.named() is None ==> r@ == stem_of(self.path@),
            self.named() is Some ==> r@ == capitalized(self.named()->0) + " "@ + stem_of(self.path@),
    {
        let stem = file_stem(self.path.as_str());
        match &self.display_name {
            Some(n) => {
                if n.as_str().unicode_len() > 0 {
                    let cap = capitalize_first_letter(n.as_str());
                    let with_space = cap.concat(" ");
                    with_space.concat(stem.as_str())
                } else {
                    stem
                }
            },
            None => stem,
        }
    }

    /// The label of the item as a line of spans for the list.
    pub fn label_line(&self) -> (r: Vec<Span>)
        ensures
            spans_view(r@) == self.label_spans(),
            line_chars(spans_view(r@)) == self.label(),
    {
        let stem = file_stem(self.path.as_str());
        let mut r: Vec<Span> = Vec::new();
        match &self.display_name {
            Some(n) => {
                if n.as_str().unicode_len() > 0 {
                    let cap = capitalize_first_letter(n.as_str());
                    r.push(span(cap, Tone::Plain));
                    r.push(span_str(" ", Tone::Plain));
                    r.push(span(stem, Tone::Dim));
                } else {
                    r.push(span(stem, Tone::Plain));
                }
            },
            None => {
                r.push(span(stem, Tone::Plain));
            },
        }
        assert(spans_view(r@) =~= self.label_spans());
        proof {
            let l = self.label_spans();
            reveal_with_fuel(line_chars, 4);
            if l.len() == 3 {
                assert(l.drop_last().drop_last().drop_last() =~= Seq::empty());
                assert(l.drop_last().drop_last().last() == l[0]);
                assert(l.drop_last().last() == l[1]);
                assert(line_chars(l) =~= self.label());
            } else {
                assert(l.drop_last() =~= Seq::empty());
                assert(line_chars(l) =~= self.label());
            }
        }
        r
    }
}

/// Whether an identifier is among the available resources.
pub open spec fn is_available(available: Seq<String>, id: Seq<char>) -> bool {
    exists|i: int| 0 <= i < available.len() && (#[trigger] available[i])@ == id
}

pub open spec fn missing_warning(reference: Option<String>, available: Seq<String>, prefix: Seq<char>) -> Seq<Seq<char>> {
    match reference {
        Some(id) => if is_available(available, id@) { Seq::empty() } else { seq![prefix + id@] },
        None => Seq::empty(),
    }
}

pub open spec fn declared_available(reference: Option<String>, available: Seq<String>) -> bool {
    match reference {
        Some(id) => is_available(available, id@),
        None => true,
    }
}

impl CatalogItem {
    /// One warning per declared resource that is not available, the rom first.
    pub open spec fn warning_texts(&self, available: Seq<String>) -> Seq<Seq<char>> {
        missing_warning(self.primary_resource, available, "Rom not found: "@)
            + missing_warning(self.secondary_resource, available, "B2S file not found: "@)
    }

    /// Every resource the item declares is available.
    pub open spec fn resources_available(&self, available: Seq<String>) -> bool {
        declared_available(self.primary_resource, available)
            && declared_available(self.secondary_resource, available)
    }

    /// The warnings for the resources this item declares but that are missing.
    pub fn warnings(&self, available: &Vec<String>) -> (r: Vec<String>)
        ensures
            r@.map_values(|w: String| w@) == self.warning_texts(available@),
            r@.len() == 0 <==> self.resources_available(available@),
    {
        let mut r: Vec<String> = Vec::new();
        if let Some(id) = &self.primary_resource {
            if !contains_id(available, id) {
                r.push(String::from_str("Rom not found: ").concat(id.as_str()));
            }
        }
        if let Some(id) = &self.secondary_resource {
            if !contains_id(available, id) {
                r.push(String::from_str("B2S file not found: ").concat(id.as_str()));
            }
        }
        assert(r@.map_values(|w: String| w@) =~= self.warning_texts(available@));
        r
    }
}

/// Whether `id` is one of the available resources.
pub fn contains_id(available: &Vec<String>, id: &String) -> (r: bool)
    ensures
        r == is_available(available@, id@),
{
    let mut i: usize = 0;
    while i < available.len()
        invariant
            i <= available@.len(),
            forall|k: int| 0 <= k < i ==> (#[trigger] available@[k])@ != id@,
        decreases available@.len() - i,
    {
        if available[i] == *id {
            return true;
        }
        i = i + 1;
    }
    false
}

} // verus!
