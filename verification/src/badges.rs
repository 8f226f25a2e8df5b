//! Generic per-workspace "badges" pulled from an external command. This keeps
//! niri-groom agnostic about *what* a badge means: the configured command
//! prints one `name<TAB>label[<TAB>#rrggbb]` line per workspace to flag, and
//! the overlay renders a small pill (and a colored outline) on the matching
//! workspace. Running the command happens around the library; here its output
//! is read into badges keyed by lowercased workspace name, since niri treats
//! workspace names case-insensitively.
//!
//! A mark kind is the write half of the same idea: a key that runs a command
//! which flips a workspace's marked state in its own store.

use vstd::prelude::*;
use crate::text::{chars_of, lines, lines_of, lowercase, runs, split_chars, split_on, string_of, to_lowercase, trim, trim_chars, lemma_split_on_len};

verus! {

/// A badge drawn on a workspace card.
pub struct Badge {
    /// The short text drawn in the pill (e.g. a bookmark key like `F11`). May
    /// be empty, in which case the workspace is only outlined.
    pub label: String,
    /// Optional per-entry color as `0xrrggbb`; when absent the theme's accent
    /// is used.
    pub color: Option<u32>,
}

/// A badge as plain values: label and color.
pub type BadgeShape = (Seq<char>, Option<u32>);

pub open spec fn badge_shape(b: Badge) -> BadgeShape {
    (b.label@, b.color)
}

/// One declared kind of workspace mark: the key that toggles it and the
/// command that owns its store.
pub struct MarkKind {
    pub name: String,
    pub key: char,
    pub command: String,
}

/// A mark kind as plain values: name, key and command.
pub type MarkKindShape = (Seq<char>, char, Seq<char>);

pub open spec fn mark_kind_shape(k: MarkKind) -> MarkKindShape {
    (k.name@, k.key, k.command@)
}

/// The value of a hexadecimal digit, if `c` is one.
pub open spec fn hex_digit(c: char) -> Option<u32> {
    if '0' <= c && c <= '9' {
        Some((c as u32 - '0' as u32) as u32)
    } else if 'a' <= c && c <= 'f' {
        Some((c as u32 - 'a' as u32 + 10) as u32)
    } else if 'A' <= c && c <= 'F' {
        Some((c as u32 - 'A' as u32 + 10) as u32)
    } else {
        None
    }
}

/// The number a run of hexadecimal digits spells, most significant first.
pub open spec fn hex_value(ds: Seq<char>) -> nat
    decreases ds.len(),
{
    if ds.len() == 0 {
        0
    } else {
        hex_value(ds.drop_last()) * 16 + match hex_digit(ds.last()) {
            Some(d) => d as nat,
            None => 0,
        }
    }
}

/// The color `#rrggbb` denotes, as `0xrrggbb`: a `#` and six hexadecimal
/// digits of either case, nothing else.
pub open spec fn hex_color(s: Seq<char>) -> Option<u32> {
    if s.len() == 7 && s[0] == '#' && forall|i: int| 1 <= i < 7 ==> #[trigger] hex_digit(s[i]) is Some {
        Some(hex_value(s.drop_first()) as u32)
    } else {
        None
    }
}

fn digit_value(c: char) -> (r: Option<u32>)
    ensures
        r == hex_digit(c),
{
    if '0' <= c && c <= '9' {
        Some(c as u32 - '0' as u32)
    } else if 'a' <= c && c <= 'f' {
        Some(c as u32 - 'a' as u32 + 10)
    } else if 'A' <= c && c <= 'F' {
        Some(c as u32 - 'A' as u32 + 10)
    } else {
        None
    }
}

/// Read a `#rrggbb` color.
pub fn parse_hex(s: &str) -> (r: Option<u32>)
    ensures
        r == hex_color(s@),
        r matches Some(v) ==> v < 0x1000000,
{
    let cs = chars_of(s);
    if cs.len() != 7 || cs[0] != '#' {
        return None;
    }
    let ghost ds = s@.drop_first();
    let mut v: u32 = 0;
    let mut i: usize = 1;
    while i < 7
        invariant
            cs@ == s@,
            cs@.len() == 7,
            1 <= i <= 7,
            ds == s@.drop_first(),
            forall|k: int| 1 <= k < i ==> #[trigger] hex_digit(s@[k]) is Some,
            v == hex_value(ds.take(i - 1)),
            v < pow16(i - 1),
        decreases 7 - i,
    {
        match digit_value(cs[i]) {
            Some(d) => {
                assert(ds.take(i as int).drop_last() =~= ds.take(i - 1));
                assert(ds.take(i as int).last() == s@[i as int]);
                assert(hex_digit(s@[i as int]) is Some);
                proof { lemma_pow16_step(i - 1); }
                assert(d < 16);
                assert(v * 16 + d < pow16(i as int)) by (nonlinear_arith)
                    requires v < pow16(i - 1), d < 16, pow16(i as int) == pow16(i - 1) * 16;
                v = v * 16 + d;
            },
            None => {
                return None;
            },
        }
        i += 1;
    }
    assert(ds.take(6) =~= ds);
    Some(v)
}

/// 16 to the power `n`, for `n` up to six.
spec fn pow16(n: int) -> int {
    if n <= 0 { 1 } else if n == 1 { 16 } else if n == 2 { 256 } else if n == 3 { 4096 }
    else if n == 4 { 65536 } else if n == 5 { 1048576 } else { 16777216 }
}

proof fn lemma_pow16_step(n: int)
    requires
        0 <= n < 6,
    ensures
        pow16(n + 1) == pow16(n) * 16,
{
}

/// What `String::from_utf8_lossy` makes of some bytes.
pub uninterp spec fn utf8_lossy(bytes: Seq<u8>) -> Seq<char>;

/// Calls `String::from_utf8_lossy`; the text is named by `utf8_lossy`.
#[verifier::external_body]
fn text_from_bytes(bytes: &[u8]) -> (s: String)
    ensures
        s@ == utf8_lossy(bytes@),
{
    String::from_utf8_lossy(bytes).into_owned()
}

/// What one line of badge output declares: the lowercased, trimmed workspace
/// name and its badge, or nothing for a line whose name is blank. The label
/// is the trimmed second field (empty when absent); the color the trimmed
/// third field read as `#rrggbb` (absent, or not such a color, gives none).
pub open spec fn badge_line(line: Seq<char>) -> Option<(Seq<char>, BadgeShape)> {
    let f = split_on(line, '\t');
    let name = trim(f[0]);
    if name.len() == 0 {
        None
    } else {
        let label = if f.len() > 1 { trim(f[1]) } else { seq![] };
        let color = if f.len() > 2 { hex_color(trim(f[2])) } else { None };
        Some((lowercase(name), (label, color)))
    }
}

/// The badges that lines of output declare; a later line for the same
/// workspace replaces an earlier one.
pub open spec fn badge_map(lines: Seq<Seq<char>>) -> Map<Seq<char>, BadgeShape>
    decreases lines.len(),
{
    if lines.len() == 0 {
        Map::empty()
    } else {
        let m = badge_map(lines.drop_last());
        match badge_line(lines.last()) {
            Some(e) => m.insert(e.0, e.1),
            None => m,
        }
    }
}

/// The badges the badge command's standard output declares.
pub open spec fn badges_in(stdout: Seq<u8>) -> Map<Seq<char>, BadgeShape> {
    badge_map(lines_of(utf8_lossy(stdout)))
}

/// Named entries, a later one for a name replacing an earlier one.
pub open spec fn entries_map(es: Seq<(Seq<char>, BadgeShape)>) -> Map<Seq<char>, BadgeShape>
    decreases es.len(),
{
    if es.len() == 0 {
        Map::empty()
    } else {
        entries_map(es.drop_last()).insert(es.last().0, es.last().1)
    }
}

/// Badges by lowercased workspace name.
pub struct Badges {
    entries: Vec<(String, Badge)>,
}

pub open spec fn entry_shape(e: (String, Badge)) -> (Seq<char>, BadgeShape) {
    (e.0@, badge_shape(e.1))
}

impl View for Badges {
    type V = Map<Seq<char>, BadgeShape>;

    closed spec fn view(&self) -> Map<Seq<char>, BadgeShape> {
        entries_map(self.entries@.map_values(|e: (String, Badge)| entry_shape(e)))
    }
}

impl Badges {
    /// No badges at all.
    pub fn new() -> (r: Badges)
        ensures
            r@ == Map::<Seq<char>, BadgeShape>::empty(),
    {
        let r = Badges { entries: Vec::new() };
        assert(r.entries@.map_values(|e: (String, Badge)| entry_shape(e)) =~= Seq::<(Seq<char>, BadgeShape)>::empty());
        r
    }

    /// The badge of the workspace whose lowercased name is `name`.
    pub fn get(&self, name: &str) -> (r: Option<&Badge>)
        ensures
            match r {
                Some(b) => self@.contains_key(name@) && self@[name@] == badge_shape(*b),
                None => !self@.contains_key(name@),
            },
    {
        let ghost es = self.entries@.map_values(|e: (String, Badge)| entry_shape(e));
        let mut i = self.entries.len();
        assert(es.take(es.len() as int) =~= es);
        while i > 0
            invariant
                i <= self.entries@.len(),
                es == self.entries@.map_values(|e: (String, Badge)| entry_shape(e)),
                entries_map(es).contains_key(name@) == entries_map(es.take(i as int)).contains_key(name@),
                entries_map(es).contains_key(name@) ==> entries_map(es)[name@] == entries_map(es.take(i as int))[name@],
            decreases i,
        {
            let ghost t = es.take(i as int);
            assert(t.drop_last() =~= es.take(i - 1));
            assert(t.last() == entry_shape(self.entries@[i - 1]));
            if crate::text::same_text(self.entries[i - 1].0.as_str(), name) {
                return Some(&self.entries[i - 1].1);
            }
            i -= 1;
        }
        assert(es.take(0) =~= Seq::<(Seq<char>, BadgeShape)>::empty());
        None
    }
}

impl Badges {
    /// The badge of a workspace, matched by its lowercased name; an unnamed
    /// workspace has none.
    pub fn for_workspace(&self, name: &Option<String>) -> (r: Option<&Badge>)
        ensures
            match *name {
                Some(n) => match r {
                    Some(b) => self@.contains_key(lowercase(n@)) && self@[lowercase(n@)] == badge_shape(*b),
                    None => !self@.contains_key(lowercase(n@)),
                },
                None => r is None,
            },
    {
        match name {
            Some(n) => {
                let key = to_lowercase(n.as_str());
                self.get(key.as_str())
            },
            None => None,
        }
    }
}

/// The entry one line of badge output declares.
fn parse_line(line: &Vec<char>) -> (r: Option<(String, Badge)>)
    ensures
        match r {
            Some(e) => badge_line(line@) == Some(entry_shape(e)),
            None => badge_line(line@) is None,
        },
{
    let fields = split_chars(line.as_slice(), '\t');
    proof { lemma_split_on_len(line@, '\t'); }
    assert(fields@[0]@ == runs(fields@)[0]);
    let name = trim_chars(fields[0].as_slice());
    if name.len() == 0 {
        return None;
    }
    let label = if fields.len() > 1 {
        assert(fields@[1]@ == runs(fields@)[1]);
        trim_chars(fields[1].as_slice())
    } else {
        Vec::new()
    };
    let color = if fields.len() > 2 {
        assert(fields@[2]@ == runs(fields@)[2]);
        let t = trim_chars(fields[2].as_slice());
        let text = string_of(t.as_slice());
        parse_hex(text.as_str())
    } else {
        None
    };
    let name_text = string_of(name.as_slice());
    let key = to_lowercase(name_text.as_str());
    let r = (key, Badge { label: string_of(label.as_slice()), color });
    proof {
        if fields.len() <= 1 {
            assert(label@ =~= Seq::<char>::empty());
        }
    }
    Some(r)
}

/// Read the badge command's standard output: one `name<TAB>label[<TAB>#rrggbb]`
/// line per flagged workspace, keyed by lowercased name. Lines with a blank
/// name are skipped, and output that is not UTF-8 is read lossily.
pub fn read_badges(stdout: &[u8]) -> (r: Badges)
    ensures
        r@ == badges_in(stdout@),
{
    let text = text_from_bytes(stdout);
    let cs = chars_of(text.as_str());
    let ls = lines(cs.as_slice());
    let ghost lv = runs(ls@);
    let mut entries: Vec<(String, Badge)> = Vec::new();
    let mut i: usize = 0;
    while i < ls.len()
        invariant
            i <= ls.len(),
            lv == runs(ls@),
            lv == lines_of(utf8_lossy(stdout@)),
            entries_map(entries@.map_values(|e: (String, Badge)| entry_shape(e))) == badge_map(lv.take(i as int)),
        decreases ls.len() - i,
    {
        assert(lv.take(i + 1).drop_last() =~= lv.take(i as int));
        assert(lv.take(i + 1).last() == ls@[i as int]@);
        let ghost before = entries@.map_values(|e: (String, Badge)| entry_shape(e));
        match parse_line(&ls[i]) {
            Some(e) => {
                let ghost es = entry_shape(e);
                entries.push(e);
                assert(entries@.map_values(|e: (String, Badge)| entry_shape(e)) =~= before.push(es));
                assert(before.push(es).drop_last() =~= before);
            },
            None => {},
        }
        i += 1;
    }
    assert(lv.take(ls.len() as int) =~= lv);
    Badges { entries }
}

} // verus!
