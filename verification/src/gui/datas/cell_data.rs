//! A table cell: its text and its fill colours, and how the text is read.
use crate::common::calendar::{date_after, date_plus_days, date_time_text, day_number, format_date_time};
use crate::common::text::{
    push_two_digits, zero_padded,
    chars_of, has_prefix, i64_text, lowercase_text, lowercased, parse_i64, parse_u64,
    replace_chars, spells, starts_with, string_of, trim_chars, trimmed, u64_text, replace_all,
};
use vstd::prelude::*;

verus! {

/// One cell of a table.
#[derive(Debug, Clone)]
pub struct CellData {
    /// The cell's text.
    pub value: String,
    /// Background colour: empty, `argb:<hex>` or `theme:<index>,tint:<tint>`.
    pub bg_fill: String,
    /// Font colour, in the same form as `bg_fill`.
    pub font_fill: String,
}

/// How a fill is given: -1 none (or unrecognised), 0 an ARGB colour, 1 a
/// theme colour.
pub open spec fn fill_kind(fill: Seq<char>) -> int {
    if fill.len() == 0 {
        -1
    } else if has_prefix(fill, "argb:"@) {
        0
    } else if has_prefix(fill, "theme:"@) {
        1
    } else {
        -1
    }
}

/// The ARGB colour of a fill: the fill with every `argb:` removed when it
/// starts with one, the empty text otherwise.
pub open spec fn fill_argb(fill: Seq<char>) -> Seq<char> {
    if fill.len() > 0 && has_prefix(fill, "argb:"@) {
        replace_all(fill, "argb:"@, ""@)
    } else {
        Seq::empty()
    }
}

/// The texts that read as `true`, after trimming and lower-casing.
pub open spec fn true_word(s: Seq<char>) -> bool {
    s == "true"@ || s == "1"@ || s == "yes"@ || s == "on"@
}

/// Whether a trimmed, lower-cased text reads as `true`: it is `true`, `1`,
/// `yes` or `on`.
pub fn is_true_word(text: &str) -> (r: bool)
    ensures
        r == true_word(text@),
{
    let n = chars_of(text);
    let s = n.as_slice();
    spells(s, "true") || spells(s, "1") || spells(s, "yes") || spells(s, "on")
}

/// The integer a cell's text holds: the parsed `i64`, or 0 when the text is
/// empty or not an `i64`.
pub open spec fn int_of_text(s: Seq<char>) -> int {
    match i64_text(s) {
        Some(v) => v,
        None => 0,
    }
}

/// The date-time text of `secs` seconds in the spreadsheet date system,
/// whose day 1 is 1900-01-01 and which counts a 29th of February 1900: day
/// numbers up to 60 fall `day - 1` days after 1900-01-01, later ones
/// `day - 2` days after it.
pub open spec fn date_text_of_seconds(secs: nat) -> Seq<char> {
    let excel_day = secs / 86400 + 1;
    let offset = if excel_day <= 60 { excel_day - 1 } else { excel_day - 2 };
    let rem = secs % 86400;
    let ymd = date_after(1900, 1, 1, offset);
    date_time_text(ymd.0, ymd.1, ymd.2, (rem / 3600) as int, ((rem % 3600) / 60) as int, (rem % 60) as int)
}

/// The number of seconds a date cell holds: its `u64`, or 0 when it is not
/// one.
pub open spec fn seconds_of_text(s: Seq<char>) -> nat {
    match u64_text(s) {
        Some(v) => v as nat,
        None => 0,
    }
}

/// The seconds of a date cell lie within the range of `chrono`'s dates.
pub open spec fn date_seconds_in_range(s: Seq<char>) -> bool {
    seconds_of_text(s) / 86400 <= 95051804
}

impl CellData {
    /// How the background is filled: -1 none, 0 ARGB colour, 1 theme colour.
    pub fn get_background_type(&self) -> (k: i8)
        ensures
            k as int == fill_kind(self.bg_fill@),
    {
        Self::kind_of_fill(self.bg_fill.as_str())
    }

    /// The ARGB background colour, or the empty text when there is none.
    pub fn get_background_color(&self) -> (c: String)
        ensures
            c@ == fill_argb(self.bg_fill@),
    {
        Self::argb_of_fill(self.bg_fill.as_str())
    }

    /// How the font colour is given: -1 none, 0 ARGB colour, 1 theme colour.
    pub fn get_font_type(&self) -> (k: i8)
        ensures
            k as int == fill_kind(self.font_fill@),
    {
        Self::kind_of_fill(self.font_fill.as_str())
    }

    /// The ARGB font colour, or the empty text when there is none.
    pub fn get_font_color(&self) -> (c: String)
        ensures
            c@ == fill_argb(self.font_fill@),
    {
        Self::argb_of_fill(self.font_fill.as_str())
    }

    fn kind_of_fill(fill: &str) -> (k: i8)
        ensures
            k as int == fill_kind(fill@),
    {
        let f = chars_of(fill);
        if f.len() == 0 {
            return -1;
        }
        let argb = chars_of("argb:");
        if starts_with(f.as_slice(), argb.as_slice()) {
            return 0;
        }
        let theme = chars_of("theme:");
        if starts_with(f.as_slice(), theme.as_slice()) {
            return 1;
        }
        -1
    }

    fn argb_of_fill(fill: &str) -> (c: String)
        ensures
            c@ == fill_argb(fill@),
    {
        let f = chars_of(fill);
        let argb = chars_of("argb:");
        if f.len() > 0 && starts_with(f.as_slice(), argb.as_slice()) {
            let empty: Vec<char> = Vec::new();
            assert(empty@ =~= ""@) by {
                reveal_strlit("");
            }
            proof {
                reveal_strlit("argb:");
            }
            let out = replace_chars(f.as_slice(), argb.as_slice(), empty.as_slice());
            string_of(out.as_slice())
        } else {
            String::new()
        }
    }

    /// Whether the text and both fills are empty.
    pub fn is_empty(&self) -> (b: bool)
        ensures
            b == (self.value@.len() == 0 && self.bg_fill@.len() == 0 && self.font_fill@.len() == 0),
    {
        self.value.unicode_len() == 0 && self.bg_fill.unicode_len() == 0 && self.font_fill.unicode_len() == 0
    }

    /// Whether the cell holds a usable value: its text is not empty.
    pub fn verify_lawful(&self) -> (b: bool)
        ensures
            b == (self.value@.len() > 0),
    {
        self.value.unicode_len() > 0
    }

    /// The text read as an `i64`; 0 when it is empty or not an integer.
    pub fn parse_int(&self) -> (v: i64)
        ensures
            v as int == int_of_text(self.value@),
    {
        let t = chars_of(self.value.as_str());
        if t.len() == 0 {
            return 0;
        }
        match parse_i64(t.as_slice()) {
            Some(v) => v,
            None => 0,
        }
    }

    /// The text read as a flag: `true` when, trimmed and lower-cased, it is
    /// `true`, `1`, `yes` or `on`; `false` otherwise.
    pub fn parse_bool(&self) -> (b: bool)
        ensures
            b == (self.value@.len() > 0 && true_word(lowercased(trimmed(self.value@)))),
    {
        if self.value.unicode_len() == 0 {
            return false;
        }
        let t = trim_chars(chars_of(self.value.as_str()).as_slice());
        let trimmed_text = string_of(t.as_slice());
        let lower = lowercase_text(trimmed_text.as_str());
        is_true_word(lower.as_str())
    }

    /// The text, read as seconds in the spreadsheet date system, written as
    /// `YYYY-MM-DD hh:mm:ss`; the empty text for an empty cell. Text that is
    /// not a `u64` counts as 0 seconds.
    pub fn convert_date(&self) -> (s: String)
        requires
            date_seconds_in_range(self.value@),
        ensures
            s@ == if self.value@.len() == 0 {
                Seq::<char>::empty()
            } else {
                date_text_of_seconds(seconds_of_text(self.value@))
            },
    {
        let t = chars_of(self.value.as_str());
        if t.len() == 0 {
            return String::new();
        }
        let seconds: u64 = match parse_u64(t.as_slice()) {
            Some(v) => v,
            None => 0,
        };
        let days: u64 = seconds / 86400;
        let remaining: u64 = seconds % 86400;
        let excel_days: u64 = days + 1;
        let offset: i64 = if excel_days <= 60 { (excel_days - 1) as i64 } else { (excel_days - 2) as i64 };
        assert(day_number(1900, 1, 1) + offset <= day_number(262142, 12, 31));
        let ymd = date_plus_days(1900, 1, 1, offset);
        let hh: u32 = (remaining / 3600) as u32;
        let mm: u32 = ((remaining % 3600) / 60) as u32;
        let ss: u32 = (remaining % 60) as u32;
        let text = format_date_time(ymd.0, ymd.1, ymd.2, hh, mm, ss);
        text
    }
}


/// The `hh:mm:ss` clock text of a number of seconds: hours, minutes and
/// seconds each written with at least two digits (hours are not wrapped).
pub open spec fn clock_of(total: nat) -> Seq<char> {
    zero_padded(total / 3600, 2) + seq![':'] + zero_padded((total % 3600) / 60, 2) + seq![':'] + zero_padded(total % 60, 2)
}

/// The clock text of a number of seconds, as a time cell is shown.
pub fn clock_text(total_seconds: u32) -> (r: String)
    ensures
        r@ == clock_of(total_seconds as nat),
{
    let hours: u32 = total_seconds / 3600;
    let minutes: u32 = (total_seconds % 3600) / 60;
    let secs: u32 = total_seconds % 60;
    let mut out: Vec<char> = Vec::new();
    push_two_digits(&mut out, hours as u64);
    out.push(':');
    push_two_digits(&mut out, minutes as u64);
    out.push(':');
    push_two_digits(&mut out, secs as u64);
    assert(out@ =~= clock_of(total_seconds as nat));
    string_of(out.as_slice())
}


impl CellData {
    /// Whether the text, read as seconds in the spreadsheet date system,
    /// lies within the range of `chrono`'s dates (what `convert_date`
    /// needs).
    pub fn date_fits(&self) -> (r: bool)
        ensures
            r == date_seconds_in_range(self.value@),
    {
        let t = chars_of(self.value.as_str());
        let seconds: u64 = match parse_u64(t.as_slice()) {
            Some(v) => v,
            None => 0,
        };
        seconds / 86400 <= 95051804
    }
}


/// The parts of `s` between the separators `sep`, as `str::split` gives
/// them: an empty text has one empty part, and a separator at either end
/// starts or ends an empty part.
pub open spec fn split_parts(s: Seq<char>, sep: char) -> Seq<Seq<char>>
    decreases s.len(),
{
    if s.len() == 0 {
        seq![Seq::<char>::empty()]
    } else {
        let p = split_parts(s.drop_last(), sep);
        if s.last() == sep {
            p.push(Seq::<char>::empty())
        } else {
            p.drop_last().push(p.last().push(s.last()))
        }
    }
}

proof fn lemma_split_parts_len(s: Seq<char>, sep: char)
    ensures
        split_parts(s, sep).len() >= 1,
    decreases s.len(),
{
    if s.len() > 0 {
        lemma_split_parts_len(s.drop_last(), sep);
    }
}

/// The parts of `s` between the separators `sep`.
pub fn split_on(s: &str, sep: char) -> (r: Vec<String>)
    ensures
        r@.map_values(|t: String| t@) == split_parts(s@, sep),
{
    let v = chars_of(s);
    let mut done: Vec<String> = Vec::new();
    let mut cur: Vec<char> = Vec::new();
    let mut i: usize = 0;
    assert(v@.take(0) =~= Seq::<char>::empty());
    while i < v.len()
        invariant
            v@ == s@,
            i <= v@.len(),
            split_parts(v@.take(i as int), sep) == done@.map_values(|t: String| t@).push(cur@),
        decreases v.len() - i,
    {
        let c = v[i];
        let ghost t = v@.take(i + 1);
        assert(t.drop_last() =~= v@.take(i as int));
        assert(t.last() == c);
        proof {
            lemma_split_parts_len(v@.take(i as int), sep);
        }
        if c == sep {
            let ghost before = done@;
            done.push(string_of(cur.as_slice()));
            cur = Vec::new();
            assert(done@.map_values(|t: String| t@).push(cur@) =~= before.map_values(|t: String| t@).push(split_parts(v@.take(i as int), sep).last()).push(Seq::<char>::empty()));
        } else {
            let ghost old_cur = cur@;
            cur.push(c);
            assert(done@.map_values(|t: String| t@).push(cur@) =~= split_parts(v@.take(i as int), sep).drop_last().push(old_cur.push(c)));
        }
        i = i + 1;
    }
    assert(v@.take(i as int) =~= v@);
    let ghost before = done@;
    done.push(string_of(cur.as_slice()));
    assert(done@.map_values(|t: String| t@) =~= before.map_values(|t: String| t@).push(cur@));
    done
}

/// The integers among some texts, in order: each text that reads as an
/// `i64` gives its value, the others give nothing.
pub open spec fn int_parts(parts: Seq<Seq<char>>) -> Seq<int>
    decreases parts.len(),
{
    if parts.len() == 0 {
        Seq::empty()
    } else {
        let prev = int_parts(parts.drop_last());
        match i64_text(parts.last()) {
            Some(v) => prev.push(v),
            None => prev,
        }
    }
}

/// What `str::parse::<bool>` reads from a text: `true` and `false` only.
pub open spec fn bool_value(s: Seq<char>) -> Option<bool> {
    if s == "true"@ {
        Some(true)
    } else if s == "false"@ {
        Some(false)
    } else {
        None
    }
}

/// The boolean a text spells, `true` or `false`.
pub fn bool_of(s: &str) -> (r: Option<bool>)
    ensures
        r == bool_value(s@),
{
    let t = chars_of(s);
    if spells(t.as_slice(), "true") {
        Some(true)
    } else if spells(t.as_slice(), "false") {
        Some(false)
    } else {
        None
    }
}

impl CellData {
    /// The `;`-separated parts of the text.
    pub fn string_items(&self) -> (r: Vec<String>)
        ensures
            r@.map_values(|t: String| t@) == split_parts(self.value@, ';'),
    {
        split_on(self.value.as_str(), ';')
    }

    /// The `;`-separated parts of the text that read as an `i64`, in order;
    /// the parts that are not integers are left out.
    pub fn int_items(&self) -> (r: Vec<i64>)
        ensures
            r@.map_values(|x: i64| x as int) == int_parts(split_parts(self.value@, ';')),
    {
        let parts = self.string_items();
        let ghost ps = split_parts(self.value@, ';');
        let mut r: Vec<i64> = Vec::new();
        let mut i: usize = 0;
        assert(ps.take(0) =~= Seq::<Seq<char>>::empty());
        assert(r@.map_values(|x: i64| x as int) =~= Seq::<int>::empty());
        while i < parts.len()
            invariant
                parts@.map_values(|t: String| t@) == ps,
                ps == split_parts(self.value@, ';'),
                i <= parts@.len(),
                r@.map_values(|x: i64| x as int) == int_parts(ps.take(i as int)),
            decreases parts.len() - i,
        {
            let t = chars_of(parts[i].as_str());
            assert(ps[i as int] == parts@[i as int]@);
            assert(ps.take(i + 1).drop_last() =~= ps.take(i as int));
            assert(ps.take(i + 1).last() == ps[i as int]);
            match parse_i64(t.as_slice()) {
                Some(v) => {
                    let ghost before = r@;
                    r.push(v);
                    assert(r@.map_values(|x: i64| x as int) =~= before.map_values(|x: i64| x as int).push(v as int));
                },
                None => {},
            }
            i = i + 1;
        }
        assert(ps.take(i as int) =~= ps);
        r
    }

    /// The `;`-separated parts of the text, each read as `true` or `false`;
    /// `None` when a part is neither.
    pub fn bool_items(&self) -> (r: Option<Vec<bool>>)
        ensures
            match r {
                Some(v) => v@.len() == split_parts(self.value@, ';').len()
                    && forall|i: int| 0 <= i < v@.len() ==> bool_value(split_parts(self.value@, ';')[i]) == Some(#[trigger] v@[i]),
                None => exists|i: int| 0 <= i < split_parts(self.value@, ';').len()
                    && bool_value(#[trigger] split_parts(self.value@, ';')[i]) is None,
            },
    {
        let parts = self.string_items();
        let ghost ps = split_parts(self.value@, ';');
        let mut r: Vec<bool> = Vec::new();
        let mut i: usize = 0;
        while i < parts.len()
            invariant
                parts@.map_values(|t: String| t@) == ps,
                ps == split_parts(self.value@, ';'),
                i <= parts@.len(),
                r@.len() == i,
                forall|k: int| 0 <= k < i ==> bool_value(ps[k]) == Some(#[trigger] r@[k]),
            decreases parts.len() - i,
        {
            assert(ps[i as int] == parts@[i as int]@);
            match bool_of(parts[i].as_str()) {
                Some(b) => r.push(b),
                None => return None,
            }
            i = i + 1;
        }
        Some(r)
    }
}

} // verus!
