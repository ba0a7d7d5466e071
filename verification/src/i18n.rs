//! The interface language, and the sentences that are put together from the
//! words of a language.
//!
//! Logs are not translated, and neither are unit symbols.

use crate::float::{
    as_double, doubles_are_near, nearest, nearest_quotient, power_of_two,
    rounding_is_to_the_nearest, to_double,
};
use crate::router::RouteMethod;
use crate::strings::{en, en_strings, zh, zh_strings, MixerText, PanelText, Strings, TrayText};
use crate::text::{
    a_part_occurs, ascii_lower, chars_of, decimal, decimals_read_back, digit_value, digits_value,
    ends_with, eq_ignoring_case, find_text, first_occurrence, joined_by, occurs, occurs_at, opt_str,
    same_chars, same_ignoring_case, split_by, splitting_by_loses_nothing, starts_with, string_of,
    the_first_occurrence_is_first, to_ascii_lower, to_decimal, to_decimal_wide, trim, trimmed,
};
use vstd::prelude::*;
use vstd::slice::slice_subrange;
use vstd::string::*;

verus! {

/// A language the interface can be drawn in.
#[derive(Debug, Clone, Copy, PartialEq, Eq, Structural)]
pub enum Lang {
    Zh,
    En,
}

/// The config spelling that means "ask the system".
pub const AUTO: &'static str = "auto";

/// The config-file spelling of a language.
pub open spec fn lang_code(lang: Lang) -> Seq<char> {
    match lang {
        Lang::Zh => "zh"@,
        Lang::En => "en"@,
    }
}

/// The language that a config-file spelling names, whatever the white space
/// around it and the case of its letters.
pub open spec fn lang_of_code(code: Seq<char>) -> Option<Lang> {
    let c = ascii_lower(trim(code));
    if c == "zh"@ || c == "cn"@ || c == "zh-cn"@ || c == "zh-hans"@ {
        Some(Lang::Zh)
    } else if c == "en"@ || c == "en-us"@ || c == "en-gb"@ {
        Some(Lang::En)
    } else {
        None
    }
}

/// The language of a system with this language id: the low byte is the
/// primary language, where 4 is Chinese.
pub open spec fn lang_of_system(langid: u16) -> Lang {
    if langid % 256 == 4 {
        Lang::Zh
    } else {
        Lang::En
    }
}

/// The words of a language.
pub open spec fn strings_of(lang: Lang) -> Strings {
    match lang {
        Lang::Zh => zh_strings(),
        Lang::En => en_strings(),
    }
}

fn is_one_of(s: &[char], word: &str) -> (r: bool)
    ensures
        r == (s@ == word@),
{
    let w = chars_of(word);
    same_chars(s, w.as_slice())
}

impl Lang {
    /// Every language, in the order the switcher lists them.
    pub fn all() -> (r: [Lang; 2])
        ensures
            r@ == seq![Lang::Zh, Lang::En],
    {
        let r: [Lang; 2] = [Lang::Zh, Lang::En];
        assert(r@ =~= seq![Lang::Zh, Lang::En]);
        r
    }

    /// The config-file spelling.
    pub fn code(self) -> (r: &'static str)
        ensures
            r@ == lang_code(self),
    {
        match self {
            Lang::Zh => "zh",
            Lang::En => "en",
        }
    }

    /// A language's name in that language, for the switcher: someone who has
    /// landed in the wrong language is looking for the word they recognise.
    pub fn endonym(self) -> (r: &'static str)
        ensures
            r@ == (match self {
                Lang::Zh => "中文"@,
                Lang::En => "English"@,
            }),
    {
        match self {
            Lang::Zh => "中文",
            Lang::En => "English",
        }
    }

    /// Parses a config-file spelling. `None` for anything unrecognised,
    /// including `"auto"`.
    pub fn from_code(code: &str) -> (r: Option<Lang>)
        ensures
            r == lang_of_code(code@),
    {
        let chars = chars_of(code);
        let lowered = to_ascii_lower(trimmed(chars.as_slice()));
        let c = lowered.as_slice();
        if is_one_of(c, "zh") || is_one_of(c, "cn") || is_one_of(c, "zh-cn") || is_one_of(
            c,
            "zh-hans",
        ) {
            Some(Lang::Zh)
        } else if is_one_of(c, "en") || is_one_of(c, "en-us") || is_one_of(c, "en-gb") {
            Some(Lang::En)
        } else {
            None
        }
    }

    /// Whether the config asks for the language to be chosen automatically.
    pub fn is_auto(code: &str) -> (r: bool)
        ensures
            r == same_ignoring_case(trim(code@), "auto"@),
    {
        let chars = chars_of(code);
        let wanted = chars_of(AUTO);
        eq_ignoring_case(trimmed(chars.as_slice()), wanted.as_slice())
    }

    /// What the operating system is set to, by the language id of its
    /// interface. Any Chinese variant is Chinese.
    pub fn from_system(langid: u16) -> (r: Lang)
        ensures
            r == lang_of_system(langid),
    {
        if langid % 256 == 4 {
            Lang::Zh
        } else {
            Lang::En
        }
    }

    /// This language's strings.
    pub fn table(self) -> (r: Strings)
        ensures
            r == strings_of(self),
    {
        match self {
            Lang::Zh => zh(),
            Lang::En => en(),
        }
    }
}

/// The language that is in force, stored as an index.
#[derive(Debug)]
pub struct LanguageCell {
    pub index: u8,
}

/// The language that an index stands for.
pub open spec fn lang_of_index(index: u8) -> Lang {
    if index == 1 {
        Lang::En
    } else {
        Lang::Zh
    }
}

impl LanguageCell {
    /// What is in force before anything was chosen.
    pub fn new() -> (r: Self)
        ensures
            lang_of_index(r.index) == Lang::Zh,
    {
        LanguageCell { index: 0 }
    }
}

/// Sets the language.
pub fn set(cell: &mut LanguageCell, lang: Lang)
    ensures
        lang_of_index(final(cell).index) == lang,
{
    cell.index =
    match lang {
        Lang::Zh => 0,
        Lang::En => 1,
    };
}

/// The current language.
pub fn current(cell: &LanguageCell) -> (r: Lang)
    ensures
        r == lang_of_index(cell.index),
{
    match cell.index {
        1 => Lang::En,
        _ => Lang::Zh,
    }
}

/// The current language's strings.
pub fn t(cell: &LanguageCell) -> (r: Strings)
    ensures
        r == strings_of(lang_of_index(cell.index)),
{
    current(cell).table()
}

/// The language for a config value: the one it names, else the system's.
pub open spec fn resolved(code: Seq<char>, langid: u16) -> Lang {
    match lang_of_code(code) {
        Some(lang) => lang,
        None => lang_of_system(langid),
    }
}

/// Turns a config value into a language, going by the system for `"auto"`.
///
/// An unrecognised value is treated as `"auto"`: a hand-edited config with a
/// typo in it should still show a language.
pub fn resolve(config_code: &str, langid: u16) -> (r: Lang)
    ensures
        r == resolved(config_code@, langid),
{
    match Lang::from_code(config_code) {
        Some(lang) => lang,
        None => Lang::from_system(langid),
    }
}

/// Config-file spellings round-trip, and `"auto"` names no language.
pub proof fn codes_round_trip(lang: Lang)
    ensures
        lang_of_code(lang_code(lang)) == Some(lang),
        lang_of_code("auto"@) is None,
{
    reveal_strlit("zh");
    reveal_strlit("en");
    reveal_strlit("cn");
    reveal_strlit("zh-cn");
    reveal_strlit("zh-hans");
    reveal_strlit("en-us");
    reveal_strlit("en-gb");
    reveal_strlit("auto");
    let code = lang_code(lang);
    assert(trim(code) == code);
    assert(ascii_lower(code) =~= code);
    assert(code[0] != "cn"@[0] && code.len() == 2);
    assert(trim("auto"@) == "auto"@);
    assert(ascii_lower("auto"@) =~= "auto"@);
    assert("auto"@[0] == 'a');
    if lang == Lang::En {
        assert(code[0] == 'e');
        assert("zh"@[0] == 'z');
    }
}

// ---------------------------------------------------------------------------
// The tray
// ---------------------------------------------------------------------------

/// The tooltip while audio is being processed.
pub open spec fn tooltip_text(
    no_preset: Seq<char>,
    warning: Seq<char>,
    preset: Option<Seq<char>>,
    error: Option<Seq<char>>,
    not_enhanced: bool,
) -> Seq<char> {
    "FxTrumpet — "@ + (match preset {
        Some(name) => name,
        None => no_preset,
    }) + (match error {
        Some(message) => " ("@ + message + ")"@,
        None => Seq::empty(),
    }) + (if not_enhanced {
        " — "@ + warning
    } else {
        Seq::empty()
    })
}

impl TrayText {
    /// The tray tooltip while audio is being processed.
    pub fn tooltip_playing(
        &self,
        preset: Option<&str>,
        error: Option<&str>,
        not_enhanced: bool,
    ) -> (r: String)
        ensures
            r@ == tooltip_text(
                self.no_preset@,
                self.not_enhanced@,
                opt_str(preset),
                opt_str(error),
                not_enhanced,
            ),
    {
        let mut text: String = "FxTrumpet — ".to_owned();
        match preset {
            Some(name) => {
                text.append(name);
            },
            None => {
                text.append(self.no_preset);
            },
        }
        let ghost front = text@;
        if let Some(message) = error {
            text.append(" (");
            text.append(message);
            text.append(")");
            assert(text@ =~= front + (" ("@ + message@ + ")"@));
        }
        let ghost middle = text@;
        assert(error is None ==> middle =~= front + Seq::<char>::empty());
        if not_enhanced {
            text.append(" — ");
            text.append(self.not_enhanced);
            assert(text@ =~= middle + (" — "@ + self.not_enhanced@));
        }
        assert(!not_enhanced ==> text@ =~= middle + Seq::<char>::empty());
        text
    }
}

// ---------------------------------------------------------------------------
// The mixer
// ---------------------------------------------------------------------------

/// What is said of so many streams.
pub open spec fn streams_text(suffix: Seq<char>, n: nat) -> Seq<char> {
    if n <= 1 {
        Seq::empty()
    } else {
        " · "@ + decimal(n) + " "@ + suffix
    }
}

impl MixerText {
    /// How many streams an application has, or nothing when it has only one
    /// and there is nothing to disambiguate.
    pub fn streams(&self, n: usize) -> (r: String)
        ensures
            r@ == streams_text(self.streams_suffix@, n as nat),
    {
        if n <= 1 {
            return String::new();
        }
        let mut text: String = " · ".to_owned();
        let number = to_decimal(n as u64);
        text.append(number.as_str());
        text.append(" ");
        text.append(self.streams_suffix);
        text
    }

    /// The label on a rule's mechanism badge.
    pub fn method_label(&self, method: RouteMethod) -> (r: &'static str)
        ensures
            r == (match method {
                RouteMethod::Policy => self.method_policy,
                RouteMethod::Injection => self.method_injection,
            }),
    {
        match method {
            RouteMethod::Policy => self.method_policy,
            RouteMethod::Injection => self.method_injection,
        }
    }
}

// ---------------------------------------------------------------------------
// Large counters
// ---------------------------------------------------------------------------

/// How often `a` has to be doubled before `a / d` has 53 bits in front of the
/// point.
pub open spec fn doublings(a: int, d: int) -> nat
    decreases
        (if a < 0x10_0000_0000_0000 * d {
            0x10_0000_0000_0000 * d - a
        } else {
            0
        }),
{
    if a <= 0 || a >= 0x10_0000_0000_0000 * d {
        0
    } else {
        1 + doublings(2 * a, d)
    }
}

/// The double-precision quotient of two numbers, times `10` to the power of
/// the decimals that are shown, rounded to an integer.
///
/// Dividing rounds once, to the 53 bits of a double; showing it with so many
/// decimals rounds again.
pub open spec fn shown_quotient(n: int, d: int, scale: int) -> int {
    let a = as_double(n);
    let one = power_of_two(doublings(a, d));
    let quotient = nearest(a * one, d);
    nearest(quotient * scale, one)
}

/// A number of tenths, with its decimal.
pub open spec fn one_decimal(v: int) -> Seq<char> {
    decimal((v / 10) as nat) + "."@ + decimal((v % 10) as nat)
}

/// A number of hundredths, with its decimals.
pub open spec fn two_decimals(v: int) -> Seq<char> {
    decimal((v / 100) as nat) + "."@ + decimal(((v / 10) % 10) as nat) + decimal((v % 10) as nat)
}

/// A large counter, abbreviated in the scale of the language: ten thousands,
/// or thousands.
pub open spec fn abbreviated(by_ten_thousand: bool, n: u64) -> Seq<char> {
    if by_ten_thousand {
        if n >= 100_000_000 {
            two_decimals(shown_quotient(n as int, 100_000_000, 100)) + " 亿"@
        } else if n >= 10_000 {
            one_decimal(shown_quotient(n as int, 10_000, 10)) + " 万"@
        } else {
            decimal(n as nat)
        }
    } else if n >= 1_000_000_000 {
        one_decimal(shown_quotient(n as int, 1_000_000_000, 10)) + "B"@
    } else if n >= 1_000_000 {
        one_decimal(shown_quotient(n as int, 1_000_000, 10)) + "M"@
    } else if n >= 10_000 {
        one_decimal(shown_quotient(n as int, 1000, 10)) + "K"@
    } else {
        decimal(n as nat)
    }
}

/// Rounds a quotient twice, as [`shown_quotient`] says.
fn quotient_shown(n: u64, d: u64, scale: u64) -> (r: u128)
    requires
        0 < d <= 1_000_000_000,
        0 < scale <= 100,
        d <= n,
    ensures
        r == shown_quotient(n as int, d as int, scale as int),
{
    let a: u128 = to_double(n);
    let mut up: u128 = a;
    let mut one: u128 = 1;
    let limit: u128 = 0x10_0000_0000_0000 * (d as u128);
    let ghost total = doublings(a as int, d as int);
    proof {
        assert(a > 0) by {
            if n >= 0x20_0000_0000_0000 {
                assert(n - 2048 > 0);
            }
        }
        assert(0x10_0000_0000_0000 * d <= 0x10_0000_0000_0000 * 1_000_000_000);
    }
    while up < limit
        invariant
            0 < a <= up,
            a <= 0x1_0000_0000_0000_0800,
            up == a * one,
            limit == 0x10_0000_0000_0000 * d,
            limit <= 0x10_0000_0000_0000 * 1_000_000_000,
            1 <= one,
            up < 2 * limit || one == 1,
            one * power_of_two(doublings(up as int, d as int)) == power_of_two(
                doublings(a as int, d as int),
            ),
        decreases
                (if up < limit {
                    limit - up
                } else {
                    0
                }),
    {
        proof {
            let k = doublings(up as int, d as int);
            assert(k >= 1);
            assert(doublings(2 * up as int, d as int) == k - 1);
            assert(one * (2 * power_of_two((k - 1) as nat)) == (one * 2) * power_of_two(
                (k - 1) as nat,
            )) by (nonlinear_arith);
            assert(2 * (a * one) == a * (2 * one)) by (nonlinear_arith);
            assert(one <= up) by (nonlinear_arith)
                requires
                    up == a * one,
                    a >= 1,
                    one >= 1,
            ;
        }
        up = up * 2;
        one = one * 2;
    }
    proof {
        assert(power_of_two(0) == 1);
        assert(one == power_of_two(doublings(a as int, d as int)));
        assert(up < 0x8000_0000_0000_0000_0000_0000_0000_0000);
        assert(one <= 0x40_0000_0000_0000) by (nonlinear_arith)
            requires
                up == a * one,
                up < 2 * limit || one == 1,
                limit == 0x10_0000_0000_0000 * d,
                a >= d - 2048,
                a >= 1,
                d < 0x20_0000_0000_0000,
                a >= d || d > 0x10_0000_0000_0000,
                one >= 1,
                d >= 1,
        ;
    }
    let quotient: u128 = nearest_quotient(up, d as u128);
    proof {
        let whole = up as int / d as int;
        if one == 1 {
            assert(a * 1 == a) by (nonlinear_arith);
            assert(whole <= up) by (nonlinear_arith)
                requires
                    whole == up as int / d as int,
                    d >= 1,
                    up >= 0,
            ;
        } else {
            assert(whole < 0x20_0000_0000_0000) by (nonlinear_arith)
                requires
                    whole == up as int / d as int,
                    up < 2 * (0x10_0000_0000_0000 * d),
                    d >= 1,
                    up >= 0,
            ;
        }
        assert(quotient <= 0x1_0000_0000_0000_0801);
        assert(quotient * scale <= 0x1_0000_0000_0000_0801 * 100) by (nonlinear_arith)
            requires
                0 <= quotient <= 0x1_0000_0000_0000_0801,
                0 <= scale <= 100,
        ;
    }
    let wide: u128 = quotient * scale as u128;
    assert(wide as int / one as int <= wide) by (nonlinear_arith)
        requires
            one >= 1,
            wide >= 0,
    ;
    nearest_quotient(wide, one)
}

fn show_one_decimal(v: u128) -> (r: String)
    ensures
        r@ == one_decimal(v as int),
{
    let mut out: String = to_decimal_wide(v / 10);
    out.append(".");
    let last = to_decimal_wide(v % 10);
    out.append(last.as_str());
    out
}

fn show_two_decimals(v: u128) -> (r: String)
    ensures
        r@ == two_decimals(v as int),
{
    let mut out: String = to_decimal_wide(v / 100);
    out.append(".");
    let first = to_decimal_wide((v / 10) % 10);
    out.append(first.as_str());
    let last = to_decimal_wide(v % 10);
    out.append(last.as_str());
    out
}

// ---------------------------------------------------------------------------
// The panel
// ---------------------------------------------------------------------------

/// A device line: a label and a description, or a dash.
pub open spec fn device_text(label: Seq<char>, description: Option<Seq<char>>) -> Seq<char> {
    label + "  "@ + (match description {
        Some(text) => text,
        None => "—"@,
    })
}

/// A text with every `p` replaced by `with`, from the left.
pub open spec fn replaced(s: Seq<char>, p: Seq<char>, with: Seq<char>) -> Seq<char>
    decreases s.len(),
{
    match first_occurrence(s, p) {
        Some(i) => if 0 <= i && 0 < p.len() && i + p.len() <= s.len() {
            s.take(i) + with + replaced(s.skip(i + p.len()), p, with)
        } else {
            s
        },
        None => s,
    }
}

fn replace_all(s: &[char], p: &[char], with: &str) -> (r: String)
    requires
        p@.len() > 0,
    ensures
        r@ == replaced(s@, p@, with@),
{
    let size: usize = s.len();
    let mut out: String = String::new();
    let mut from: usize = 0;
    assert(s@.skip(0) =~= s@);
    assert(out@ + replaced(s@, p@, with@) =~= replaced(s@, p@, with@));
    loop
        invariant
            p@.len() > 0,
            from <= size == s@.len(),
            out@ + replaced(s@.skip(from as int), p@, with@) == replaced(s@, p@, with@),
        decreases size - from,
    {
        let rest = slice_subrange(s, from, size);
        assert(rest@ =~= s@.skip(from as int));
        let ghost before = out@;
        match find_text(rest, p) {
            Some(i) => {
                let piece = string_of(slice_subrange(rest, 0, i));
                out.append(piece.as_str());
                out.append(with);
                proof {
                    assert(piece@ =~= rest@.take(i as int));
                    assert(rest@.skip(i + p@.len()) =~= s@.skip(from + i + p@.len()));
                    assert(out@ + replaced(s@.skip(from + i + p@.len()), p@, with@) =~= before + (
                    rest@.take(i as int) + with@ + replaced(rest@.skip(i + p@.len()), p@, with@)));
                }
                from = from + (i + p.len());
            },
            None => {
                let piece = string_of(rest);
                out.append(piece.as_str());
                return out;
            },
        }
    }
}

impl PanelText {
    /// The line for the device captured from, or a dash when there is nothing
    /// to report.
    pub fn input_line(&self, description: Option<&str>) -> (r: String)
        ensures
            r@ == device_text(self.device_in_prefix@, opt_str(description)),
    {
        self.device_line(self.device_in_prefix, description)
    }

    /// The line for the device rendered to, or a dash.
    pub fn output_line(&self, description: Option<&str>) -> (r: String)
        ensures
            r@ == device_text(self.device_out_prefix@, opt_str(description)),
    {
        self.device_line(self.device_out_prefix, description)
    }

    fn device_line(&self, label: &str, description: Option<&str>) -> (r: String)
        ensures
            r@ == device_text(label@, opt_str(description)),
    {
        let mut text: String = label.to_owned();
        text.append("  ");
        match description {
            Some(device) => {
                text.append(device);
            },
            None => {
                text.append("—");
            },
        }
        text
    }

    pub fn latency(&self, ms: u32) -> (r: String)
        ensures
            r@ == latency_text(*self, ms),
    {
        let mut text: String = self.latency_label.to_owned();
        text.append(" ");
        let number = to_decimal(ms as u64);
        text.append(number.as_str());
        text.append(" ms");
        text
    }

    /// The footer's underrun figure, abbreviated: it is a count of frames,
    /// which reaches eight digits within minutes.
    pub fn underruns(&self, frames: u64) -> (r: String)
        ensures
            r@ == counter_text(self.underruns_label@, self.groups_by_ten_thousand, frames),
    {
        let mut text: String = self.underruns_label.to_owned();
        text.append(" ");
        let number = self.abbreviate(frames);
        text.append(number.as_str());
        text
    }

    pub fn drops(&self, count: u64) -> (r: String)
        ensures
            r@ == counter_text(self.drops_label@, self.groups_by_ten_thousand, count),
    {
        let mut text: String = self.drops_label.to_owned();
        text.append(" ");
        let number = self.abbreviate(count);
        text.append(number.as_str());
        text
    }

    /// The same three numbers, unrounded, for the hover tooltip.
    pub fn stats_detail(&self, latency_ms: u32, underrun_frames: u64, drops: u64) -> (r: String)
        ensures
            r@ == detail_text(*self, latency_ms, underrun_frames, drops),
    {
        let mut text: String = self.latency(latency_ms);
        text.append("\n");
        text.append(self.underruns_label);
        text.append(" ");
        let frames = to_decimal(underrun_frames);
        text.append(frames.as_str());
        text.append(" ");
        text.append(self.frames_unit);
        text.append("\n");
        text.append(self.drops_label);
        text.append(" ");
        let dropped = to_decimal(drops);
        text.append(dropped.as_str());
        text
    }

    /// Abbreviates a large counter using this language's own scale.
    pub fn abbreviate(&self, n: u64) -> (r: String)
        ensures
            r@ == abbreviated(self.groups_by_ten_thousand, n),
    {
        if self.groups_by_ten_thousand {
            if n >= 100_000_000 {
                let mut text = show_two_decimals(quotient_shown(n, 100_000_000, 100));
                text.append(" 亿");
                text
            } else if n >= 10_000 {
                let mut text = show_one_decimal(quotient_shown(n, 10_000, 10));
                text.append(" 万");
                text
            } else {
                to_decimal(n)
            }
        } else if n >= 1_000_000_000 {
            let mut text = show_one_decimal(quotient_shown(n, 1_000_000_000, 10));
            text.append("B");
            text
        } else if n >= 1_000_000 {
            let mut text = show_one_decimal(quotient_shown(n, 1_000_000, 10));
            text.append("M");
            text
        } else if n >= 10_000 {
            let mut text = show_one_decimal(quotient_shown(n, 1000, 10));
            text.append("K");
            text
        } else {
            to_decimal(n)
        }
    }

    /// The message shown after a save, given the file that was written and
    /// whether it replaced something.
    pub fn saved(&self, filename: &str, overwrote: bool) -> (r: String)
        ensures
            r@ == saved_text(*self, filename@, overwrote),
    {
        let template = if overwrote {
            self.save_overwrote
        } else {
            self.saved_ok
        };
        let chars = chars_of(template);
        let place = chars_of("{}");
        proof {
            reveal_strlit("{}");
        }
        replace_all(chars.as_slice(), place.as_slice(), filename)
    }
}

/// The message after a save.
pub open spec fn saved_text(panel: PanelText, filename: Seq<char>, overwrote: bool) -> Seq<char> {
    replaced(
        if overwrote {
            panel.save_overwrote@
        } else {
            panel.saved_ok@
        },
        "{}"@,
        filename,
    )
}

/// A counter behind its label.
pub open spec fn counter_text(label: Seq<char>, by_ten_thousand: bool, n: u64) -> Seq<char> {
    label + " "@ + abbreviated(by_ten_thousand, n)
}

/// The three figures, each in a line of its own.
pub open spec fn detail_text(
    panel: PanelText,
    latency_ms: u32,
    underrun_frames: u64,
    drops: u64,
) -> Seq<char> {
    latency_text(panel, latency_ms) + "\n"@ + panel.underruns_label@ + " "@ + decimal(
        underrun_frames as nat,
    ) + " "@ + panel.frames_unit@ + "\n"@ + panel.drops_label@ + " "@ + decimal(drops as nat)
}

pub open spec fn latency_text(panel: PanelText, ms: u32) -> Seq<char> {
    panel.latency_label@ + " "@ + decimal(ms as nat) + " ms"@
}

proof fn lemma_replaced(s: Seq<char>, p: Seq<char>, with: Seq<char>)
    requires
        p.len() > 0,
        first_occurrence(s, p) is Some,
    ensures
        occurs(replaced(s, p, with), with),
{
    crate::text::lemma_first_occurrence(s, p);
    let i = first_occurrence(s, p)->0;
    let r = replaced(s, p, with);
    assert(r == s.take(i) + with + replaced(s.skip(i + p.len()), p, with));
    assert(r.subrange(i, i + with.len()) =~= with);
    assert(occurs_at(r, with, i));
}

proof fn lemma_occurs_first(s: Seq<char>, p: Seq<char>, i: int)
    requires
        occurs_at(s, p, i),
    ensures
        first_occurrence(s, p) is Some,
    decreases s.len(),
{
    if !occurs_at(s, p, 0) && s.len() > 0 {
        let rest = s.drop_first();
        assert(rest.subrange(i - 1, i - 1 + p.len()) =~= s.subrange(i, i + p.len()));
        lemma_occurs_first(rest, p, i - 1);
    }
}

/// The message after a save names the file, in every language.
pub proof fn save_messages_name_the_file(lang: Lang, filename: Seq<char>)
    ensures
        occurs(replaced(strings_of(lang).panel.saved_ok@, "{}"@, filename), filename),
        occurs(replaced(strings_of(lang).panel.save_overwrote@, "{}"@, filename), filename),
{
    reveal_strlit("{}");
    reveal_strlit("已保存 {}");
    reveal_strlit("已覆盖 {}");
    reveal_strlit("Saved {}");
    reveal_strlit("Overwrote {}");
    let place = "{}"@;
    let a = strings_of(lang).panel.saved_ok@;
    let b = strings_of(lang).panel.save_overwrote@;
    assert(a.subrange(a.len() - 2, a.len() as int) =~= place);
    assert(b.subrange(b.len() - 2, b.len() as int) =~= place);
    assert(occurs_at(a, place, a.len() - 2));
    assert(occurs_at(b, place, b.len() - 2));
    lemma_occurs_first(a, place, a.len() - 2);
    lemma_occurs_first(b, place, b.len() - 2);
    lemma_replaced(a, place, filename);
    lemma_replaced(b, place, filename);
}

// ---------------------------------------------------------------------------
// What holds of every language
// ---------------------------------------------------------------------------

/// How a language is spelled does not matter: neither white space around the
/// code nor the case of its letters.
pub proof fn spellings_do_not_matter(a: Seq<char>, b: Seq<char>)
    requires
        same_ignoring_case(trim(a), trim(b)),
    ensures
        lang_of_code(a) == lang_of_code(b),
{
}

/// A code names one language at most, and each of them by what it begins with.
pub proof fn codes_begin_alike(code: Seq<char>)
    ensures
        lang_of_code(code) == Some(Lang::En) ==> starts_with(ascii_lower(trim(code)), "en"@),
        lang_of_code(code) == Some(Lang::Zh) ==> starts_with(ascii_lower(trim(code)), "zh"@)
            || ascii_lower(trim(code)) == "cn"@,
{
    reveal_strlit("zh");
    reveal_strlit("en");
    reveal_strlit("zh-cn");
    reveal_strlit("zh-hans");
    reveal_strlit("en-us");
    reveal_strlit("en-gb");
    assert("zh"@.take(2) =~= "zh"@);
    assert("zh-cn"@.take(2) =~= "zh"@);
    assert("zh-hans"@.take(2) =~= "zh"@);
    assert("en"@.take(2) =~= "en"@);
    assert("en-us"@.take(2) =~= "en"@);
    assert("en-gb"@.take(2) =~= "en"@);
}

/// Every variant of Chinese is Chinese, and nothing else is.
pub proof fn every_variant_is_chinese(variant: u8, primary: u8)
    ensures
        lang_of_system((256 * variant + primary) as u16) == Lang::Zh <==> primary == 4,
{
}

/// A language that is named is used whatever the system's is; anything else is
/// left to the system.
pub proof fn a_named_language_is_used(lang: Lang, code: Seq<char>, langid: u16)
    ensures
        resolved(lang_code(lang), langid) == lang,
        resolved("auto"@, langid) == lang_of_system(langid),
        lang_of_code(code) is None ==> resolved(code, langid) == lang_of_system(langid),
        lang_of_code(code) is Some ==> lang_of_code(code) == Some(resolved(code, langid)),
{
    codes_round_trip(lang);
}

/// The tooltip begins with the application and the preset, has an error just
/// where there is one, in brackets, and ends with the warning just where that is
/// due.
pub proof fn the_tooltip_says_it_all(
    no_preset: Seq<char>,
    warning: Seq<char>,
    preset: Option<Seq<char>>,
    error: Option<Seq<char>>,
    not_enhanced: bool,
)
    ensures
        ({
            let text = tooltip_text(no_preset, warning, preset, error, not_enhanced);
            &&& starts_with(text, "FxTrumpet — "@)
            &&& preset is Some ==> starts_with(text, "FxTrumpet — "@ + preset->0)
            &&& preset is None ==> starts_with(text, "FxTrumpet — "@ + no_preset)
            &&& error is Some ==> occurs(text, "("@ + error->0 + ")"@)
            &&& not_enhanced ==> ends_with(text, warning)
            &&& error is None && !not_enhanced ==> text.len() == "FxTrumpet — "@.len() + (
            if preset is Some {
                preset->0.len()
            } else {
                no_preset.len()
            })
        }),
{
    let text = tooltip_text(no_preset, warning, preset, error, not_enhanced);
    let name = match preset {
        Some(given) => given,
        None => no_preset,
    };
    let problem = match error {
        Some(message) => " ("@ + message + ")"@,
        None => Seq::empty(),
    };
    let rest = if not_enhanced {
        " — "@ + warning
    } else {
        Seq::empty()
    };
    let head = "FxTrumpet — "@;
    assert(text =~= head + name + (problem + rest));
    a_part_occurs(Seq::empty(), head + name, problem + rest);
    assert(text =~= head + (name + problem + rest));
    a_part_occurs(Seq::empty(), head, name + problem + rest);
    if let Some(message) = error {
        reveal_strlit(" (");
        reveal_strlit("(");
        let shown = "("@ + message + ")"@;
        assert(problem =~= seq![' '] + shown);
        assert(text =~= (head + name + seq![' ']) + shown + rest);
        a_part_occurs(head + name + seq![' '], shown, rest);
    }
    if not_enhanced {
        assert(text =~= (head + name + problem + " — "@) + warning);
        a_part_occurs(head + name + problem + " — "@, warning, Seq::empty());
    }
}

/// Several streams are counted; of one there is nothing to say.
pub proof fn several_streams_are_counted(suffix: Seq<char>, n: nat)
    ensures
        streams_text(suffix, n).len() == 0 <==> n <= 1,
        n > 1 ==> occurs(streams_text(suffix, n), decimal(n)) && ends_with(
            streams_text(suffix, n),
            suffix,
        ),
{
    if n > 1 {
        let text = streams_text(suffix, n);
        decimals_read_back(n);
        a_part_occurs(" · "@, decimal(n), " "@ + suffix);
        assert(text =~= " · "@ + decimal(n) + (" "@ + suffix));
        a_part_occurs(" · "@ + decimal(n) + " "@, suffix, Seq::empty());
    }
}

proof fn lemma_doubled(a: int, d: int)
    requires
        a > 0,
        d > 0,
    ensures
        a * power_of_two(doublings(a, d)) >= 0x10_0000_0000_0000 * d,
        power_of_two(doublings(a, d)) >= 1,
    decreases
            (if a < 0x10_0000_0000_0000 * d {
                0x10_0000_0000_0000 * d - a
            } else {
                0
            }),
{
    if a < 0x10_0000_0000_0000 * d {
        lemma_doubled(2 * a, d);
        let k = doublings(2 * a, d);
        assert(doublings(a, d) == k + 1);
        assert(power_of_two((k + 1) as nat) == 2 * power_of_two(k));
        assert(a * (2 * power_of_two(k)) == (2 * a) * power_of_two(k)) by (nonlinear_arith);
    } else {
        assert(power_of_two(0) == 1);
        assert(a * 1 == a) by (nonlinear_arith);
    }
}

/// What is shown of a quotient is off by less than one of its last decimal.
pub proof fn a_shown_quotient_is_near(n: int, d: int, scale: int)
    requires
        0 < n < 0x20_0000_0000_0000,
        1000 <= d,
        0 < scale <= 100,
    ensures
        -d < d * shown_quotient(n, d, scale) - n * scale < d,
{
    doubles_are_near(n);
    lemma_doubled(n, d);
    let one = power_of_two(doublings(n, d));
    let q = nearest(n * one, d);
    let r = nearest(q * scale, one);
    rounding_is_to_the_nearest(n * one, d);
    rounding_is_to_the_nearest(q * scale, one);
    assert(one > scale) by (nonlinear_arith)
        requires
            n * one >= 0x10_0000_0000_0000 * d,
            d >= 1000,
            0 < n < 0x20_0000_0000_0000,
            one >= 1,
            scale <= 100,
    ;
    let e1 = n * one - d * q;
    let e2 = q * scale - one * r;
    assert(-d <= 2 * e1 <= d && -one <= 2 * e2 <= one);
    assert(one * (d * r - n * scale) == -(scale * e1) - d * e2) by (nonlinear_arith)
        requires
            e1 == n * one - d * q,
            e2 == q * scale - one * r,
    ;
    assert(-(scale * d) <= 2 * (scale * e1) <= scale * d) by (nonlinear_arith)
        requires
            -d <= 2 * e1 <= d,
            scale > 0,
    ;
    assert(-(d * one) <= 2 * (d * e2) <= d * one) by (nonlinear_arith)
        requires
            -one <= 2 * e2 <= one,
            d > 0,
    ;
    assert(scale * d < d * one) by (nonlinear_arith)
        requires
            scale < one,
            d > 0,
    ;
    let off = d * r - n * scale;
    assert(-(2 * (d * one)) < 2 * (one * off) < 2 * (d * one));
    assert(-d < off < d) by (nonlinear_arith)
        requires
            -(2 * (d * one)) < 2 * (one * off) < 2 * (d * one),
            one >= 1,
            d > 0,
    ;
}

/// A number of tenths is written with one digit behind its point, and a number
/// of hundredths with two; read without the point each is the number.
pub proof fn decimals_stand_behind_the_point(v: int)
    requires
        v >= 0,
    ensures
        ({
            let whole = decimal((v / 10) as nat);
            let text = one_decimal(v);
            &&& text.len() == whole.len() + 2
            &&& text[whole.len() as int] == '.'
            &&& text.take(whole.len() as int) == whole
            &&& 10 * digits_value(whole) + digit_value(text.last()) == v
        }),
        ({
            let whole = decimal((v / 100) as nat);
            let text = two_decimals(v);
            &&& text.len() == whole.len() + 3
            &&& text[whole.len() as int] == '.'
            &&& text.take(whole.len() as int) == whole
            &&& 100 * digits_value(whole) + 10 * digit_value(text[1 + whole.len() as int]) + digit_value(
                text.last(),
            ) == v
        }),
{
    reveal_strlit(".");
    decimals_read_back((v / 10) as nat);
    decimals_read_back((v / 100) as nat);
    decimals_read_back((v % 10) as nat);
    decimals_read_back(((v / 10) % 10) as nat);
    assert(decimal((v % 10) as nat).len() == 1);
    assert(decimal(((v / 10) % 10) as nat).len() == 1);
    assert(one_decimal(v).take(decimal((v / 10) as nat).len() as int) =~= decimal(
        (v / 10) as nat,
    ));
    assert(two_decimals(v).take(decimal((v / 100) as nat).len() as int) =~= decimal(
        (v / 100) as nat,
    ));
    assert(one_decimal(v).last() == decimal((v % 10) as nat)[0]);
    assert(two_decimals(v).last() == decimal((v % 10) as nat)[0]);
    assert(two_decimals(v)[1 + decimal((v / 100) as nat).len() as int] == decimal(
        ((v / 10) % 10) as nat,
    )[0]);
    assert((v / 10) / 10 == v / 100);
}

/// A counter below ten thousand is shown in full. A larger one is shown in a
/// unit that goes into it, which stands behind it.
pub proof fn small_counters_are_shown_in_full(by_ten_thousand: bool, n: u64)
    ensures
        n < 10_000 ==> abbreviated(by_ten_thousand, n) == decimal(n as nat),
        !by_ten_thousand && n >= 10_000 ==> (abbreviated(by_ten_thousand, n).last() == (if n
            < 1_000_000 {
            'K'
        } else if n < 1_000_000_000 {
            'M'
        } else {
            'B'
        })),
        by_ten_thousand && n >= 10_000 ==> (abbreviated(by_ten_thousand, n).last() == (if n
            < 100_000_000 {
            '万'
        } else {
            '亿'
        })),
{
    reveal_strlit("K");
    reveal_strlit("M");
    reveal_strlit("B");
    reveal_strlit(" 万");
    reveal_strlit(" 亿");
}

/// What an abbreviated counter shows, in the unit that it names, is off by less
/// than one of its last decimal.
pub proof fn an_abbreviated_counter_is_near(n: u64) -> (shown: (int, int))
    requires
        10_000 <= n < 0x20_0000_0000_0000,
    ensures
        ({
            let (tenths, parts) = shown;
            let unit: int = if n < 1_000_000 {
                1000
            } else if n < 1_000_000_000 {
                1_000_000
            } else {
                1_000_000_000
            };
            let text = abbreviated(false, n);
            &&& text.drop_last() == one_decimal(tenths)
            &&& -unit < unit * tenths - 10 * n < unit
        }),
        ({
            let (tenths, parts) = shown;
            let text = abbreviated(true, n);
            let front = text.take(text.len() - 2);
            if n < 100_000_000 {
                front == one_decimal(parts) && -10_000 < 10_000 * parts - 10 * n < 10_000
            } else {
                front == two_decimals(parts) && -100_000_000 < 100_000_000 * parts - 100 * n
                    < 100_000_000
            }
        }),
{
    reveal_strlit("K");
    reveal_strlit("M");
    reveal_strlit("B");
    reveal_strlit(" 万");
    reveal_strlit(" 亿");
    let unit: int = if n < 1_000_000 {
        1000
    } else if n < 1_000_000_000 {
        1_000_000
    } else {
        1_000_000_000
    };
    let tenths = shown_quotient(n as int, unit, 10);
    a_shown_quotient_is_near(n as int, unit, 10);
    let parts = if n < 100_000_000 {
        shown_quotient(n as int, 10_000, 10)
    } else {
        shown_quotient(n as int, 100_000_000, 100)
    };
    a_shown_quotient_is_near(n as int, 10_000, 10);
    a_shown_quotient_is_near(n as int, 100_000_000, 100);
    assert(abbreviated(false, n).drop_last() =~= one_decimal(tenths));
    let text = abbreviated(true, n);
    if n < 100_000_000 {
        assert(text.take(text.len() - 2) =~= one_decimal(parts));
    } else {
        assert(text.take(text.len() - 2) =~= two_decimals(parts));
    }
    (tenths, parts)
}

/// A device line has its label in front and the description behind.
pub proof fn a_device_line_has_its_label(label: Seq<char>, description: Seq<char>)
    ensures
        starts_with(device_text(label, Some(description)), label),
        ends_with(device_text(label, Some(description)), description),
        starts_with(device_text(label, None), label),
        ends_with(device_text(label, None), "—"@),
{
    a_part_occurs(Seq::empty(), label, "  "@ + description);
    assert(device_text(label, Some(description)) =~= label + ("  "@ + description));
    a_part_occurs(label + "  "@, description, Seq::empty());
    a_part_occurs(Seq::empty(), label, "  "@ + "—"@);
    assert(device_text(label, None) =~= label + ("  "@ + "—"@));
    a_part_occurs(label + "  "@, "—"@, Seq::empty());
}

/// Replacing is splitting and putting together again with the other text.
pub proof fn replacing_is_putting_together(s: Seq<char>, p: Seq<char>, with: Seq<char>)
    ensures
        replaced(s, p, with) == joined_by(split_by(s, p), with),
    decreases s.len(),
{
    crate::text::lemma_first_occurrence(s, p);
    match first_occurrence(s, p) {
        Some(i) => {
            if 0 < p.len() {
                let rest = s.skip(i + p.len());
                replacing_is_putting_together(rest, p, with);
                splitting_by_loses_nothing(rest, p);
                assert(split_by(s, p).drop_first() =~= split_by(rest, p));
            }
        },
        None => {},
    }
}

/// A template with one place for the name becomes the same text with the name
/// in that place.
pub proof fn a_name_is_put_in_its_place(front: Seq<char>, name: Seq<char>)
    requires
        !front.contains('{'),
    ensures
        replaced(front + "{}"@, "{}"@, name) == front + name,
{
    reveal_strlit("{}");
    let s = front + "{}"@;
    let p = "{}"@;
    let n = front.len() as int;
    assert(s.subrange(n, n + 2) =~= p);
    assert(occurs_at(s, p, n));
    the_first_occurrence_is_first(s, p);
    let i = first_occurrence(s, p)->0;
    if i < n {
        assert(s.subrange(i, i + 2)[0] == '{');
        assert(s[i] == front[i]);
        assert(front.contains(front[i]));
    }
    assert(i == n);
    assert(s.skip(n + 2) =~= Seq::empty());
    let rest = Seq::<char>::empty();
    the_first_occurrence_is_first(rest, p);
    if first_occurrence(rest, p) is Some {
        assert(occurs_at(rest, p, first_occurrence(rest, p)->0));
    }
    assert(replaced(rest, p, name) == rest);
    assert(s.take(n) =~= front);
    assert(replaced(s, p, name) =~= front + name);
}

/// The message after a save ends in the file's name and tells whether something
/// was overwritten, in every language.
pub proof fn a_save_is_told_as_it_was(lang: Lang, filename: Seq<char>)
    ensures
        ends_with(saved_text(strings_of(lang).panel, filename, true), filename),
        ends_with(saved_text(strings_of(lang).panel, filename, false), filename),
        saved_text(strings_of(lang).panel, filename, true) != saved_text(
            strings_of(lang).panel,
            filename,
            false,
        ),
{
    let (a, b) = lemma_save_templates(lang);
    a_name_is_put_in_its_place(a, filename);
    a_name_is_put_in_its_place(b, filename);
    a_part_occurs(a, filename, Seq::empty());
    a_part_occurs(b, filename, Seq::empty());
    let k = choose|k: int| 0 <= k < a.len() && k < b.len() && a[k] != b[k];
    assert((a + filename)[k] != (b + filename)[k]);
}

proof fn lemma_save_templates(lang: Lang) -> (r: (Seq<char>, Seq<char>))
    ensures
        strings_of(lang).panel.save_overwrote@ == r.0 + "{}"@,
        strings_of(lang).panel.saved_ok@ == r.1 + "{}"@,
        !r.0.contains('{'),
        !r.1.contains('{'),
        exists|k: int| 0 <= k < r.0.len() && k < r.1.len() && r.0[k] != r.1[k],
{
    reveal_strlit("{}");
    reveal_strlit("已保存 {}");
    reveal_strlit("已覆盖 {}");
    reveal_strlit("Saved {}");
    reveal_strlit("Overwrote {}");
    let over = strings_of(lang).panel.save_overwrote@;
    let saved = strings_of(lang).panel.saved_ok@;
    let a = over.take(over.len() - 2);
    let b = saved.take(saved.len() - 2);
    assert(over =~= a + "{}"@);
    assert(saved =~= b + "{}"@);
    let k: int = match lang {
        Lang::Zh => 1,
        Lang::En => 0,
    };
    assert(a[k] != b[k]);
    (a, b)
}

/// The three figures stand in three lines, each behind its own label.
pub proof fn the_figures_stand_in_three_lines(
    panel: PanelText,
    latency_ms: u32,
    underrun_frames: u64,
    drops: u64,
)
    ensures
        detail_text(panel, latency_ms, underrun_frames, drops) == joined_by(
            seq![
                panel.latency_label@ + " "@ + decimal(latency_ms as nat) + " ms"@,
                panel.underruns_label@ + " "@ + decimal(underrun_frames as nat) + " "@
                    + panel.frames_unit@,
                panel.drops_label@ + " "@ + decimal(drops as nat),
            ],
            "\n"@,
        ),
{
    let a = panel.latency_label@ + " "@ + decimal(latency_ms as nat) + " ms"@;
    let b = panel.underruns_label@ + " "@ + decimal(underrun_frames as nat) + " "@
        + panel.frames_unit@;
    let c = panel.drops_label@ + " "@ + decimal(drops as nat);
    let lines = seq![a, b, c];
    assert(lines.drop_first() =~= seq![b, c]);
    assert(seq![b, c].drop_first() =~= seq![c]);
    reveal_with_fuel(joined_by, 3);
    assert(detail_text(panel, latency_ms, underrun_frames, drops) =~= a + "\n"@ + (b + "\n"@ + c));
}

/// A counter's line begins with its label and ends with the counter.
pub proof fn a_counter_has_its_label(label: Seq<char>, by_ten_thousand: bool, n: u64)
    ensures
        starts_with(counter_text(label, by_ten_thousand, n), label),
        ends_with(counter_text(label, by_ten_thousand, n), abbreviated(by_ten_thousand, n)),
{
    let shown = abbreviated(by_ten_thousand, n);
    a_part_occurs(Seq::empty(), label, " "@ + shown);
    assert(counter_text(label, by_ten_thousand, n) =~= label + (" "@ + shown));
    a_part_occurs(label + " "@, shown, Seq::empty());
}

} // verus!
