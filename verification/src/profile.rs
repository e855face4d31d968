//! Device profiles: target resolution and grayscale palette per e-reader
//! model, and the lookups over them.

use crate::text::{chars_of, lowercase, str_eq, str_starts_with, to_lowercase};
use vstd::prelude::*;

verus! {

/// Grayscale palette depth used for palette-quantized output.
#[derive(Debug, Clone, Copy, PartialEq, Eq, Structural)]
pub enum Palette {
    /// 4 gray levels.
    Gray4,
    /// 15 gray levels.
    Gray15,
    /// 16 gray levels.
    Gray16,
}

/// The gray values of a palette. `Gray15` is `Gray16` without `0xee`: the
/// gap between `0xdd` and `0xff` is real.
pub open spec fn palette_values(p: Palette) -> Seq<u8> {
    match p {
        Palette::Gray4 => seq![0x00u8, 0x55, 0xaa, 0xff],
        Palette::Gray15 => seq![
            0x00u8, 0x11, 0x22, 0x33, 0x44, 0x55, 0x66, 0x77, 0x88, 0x99, 0xaa, 0xbb, 0xcc, 0xdd, 0xff,
        ],
        Palette::Gray16 => seq![
            0x00u8, 0x11, 0x22, 0x33, 0x44, 0x55, 0x66, 0x77, 0x88, 0x99, 0xaa, 0xbb, 0xcc, 0xdd, 0xee, 0xff,
        ],
    }
}

impl Palette {
    /// Number of distinct gray levels in the palette.
    pub fn levels(self) -> (n: u8)
        ensures
            n as int == palette_values(self).len(),
    {
        let v = self.level_values();
        v.len() as u8
    }

    /// The exact gray values of this palette, in increasing order.
    pub fn level_values(self) -> (v: &'static [u8])
        ensures
            v@ == palette_values(self),
    {
        match self {
            Palette::Gray4 => {
                let a: &'static [u8] = &[0x00, 0x55, 0xaa, 0xff];
                assert(a@ =~= palette_values(self));
                a
            },
            Palette::Gray15 => {
                let a: &'static [u8] = &[
                    0x00, 0x11, 0x22, 0x33, 0x44, 0x55, 0x66, 0x77, 0x88, 0x99, 0xaa, 0xbb, 0xcc, 0xdd, 0xff,
                ];
                assert(a@ =~= palette_values(self));
                a
            },
            Palette::Gray16 => {
                let a: &'static [u8] = &[
                    0x00, 0x11, 0x22, 0x33, 0x44, 0x55, 0x66, 0x77, 0x88, 0x99, 0xaa, 0xbb, 0xcc, 0xdd, 0xee, 0xff,
                ];
                assert(a@ =~= palette_values(self));
                a
            },
        }
    }
}

/// A named device target: short code, display name, screen resolution and
/// palette.
#[derive(Debug, Clone, Copy)]
pub struct Profile {
    pub code: &'static str,
    pub display_name: &'static str,
    pub width: u32,
    pub height: u32,
    pub palette: Palette,
    /// Gamma in thousandths; every built-in profile ships 1000 (no
    /// correction).
    pub gamma_milli: u32,
}

/// Device family, used for format defaults and family-specific behavior.
#[derive(Debug, Clone, Copy, PartialEq, Eq, Structural)]
pub enum Family {
    Kindle,
    Kobo,
    Remarkable,
    Other,
}

pub open spec fn row(code: &'static str, name: &'static str, w: u32, h: u32, pal: Palette) -> Profile {
    Profile { code, display_name: name, width: w, height: h, palette: pal, gamma_milli: 1000 }
}

/// Every built-in profile, in declaration order.
pub open spec fn profile_table() -> Seq<Profile> {
    seq![
        row("K1", "Kindle 1", 600, 670, Palette::Gray4),
        row("K2", "Kindle 2", 600, 670, Palette::Gray15),
        row("KDX", "Kindle DX/DXG", 824, 1000, Palette::Gray16),
        row("K34", "Kindle Keyboard/Touch", 600, 800, Palette::Gray16),
        row("K57", "Kindle 5/7", 600, 800, Palette::Gray16),
        row("KPW", "Kindle Paperwhite 1/2", 758, 1024, Palette::Gray16),
        row("KV", "Kindle Voyage", 1072, 1448, Palette::Gray16),
        row("KPW34", "Kindle Paperwhite 3/4/Oasis", 1072, 1448, Palette::Gray16),
        row("K810", "Kindle 8/10", 600, 800, Palette::Gray16),
        row("KO", "Kindle Oasis 2/3", 1264, 1680, Palette::Gray16),
        row("K11", "Kindle 11", 1072, 1448, Palette::Gray16),
        row("KPW5", "Kindle Paperwhite 5/Signature Edition", 1236, 1648, Palette::Gray16),
        row("KPW6", "Kindle Paperwhite 6", 1272, 1696, Palette::Gray16),
        row("KS1860", "Kindle 1860", 1860, 1920, Palette::Gray16),
        row("KS1920", "Kindle 1920", 1920, 1920, Palette::Gray16),
        row("KS1240", "Kindle 1240", 1240, 1860, Palette::Gray16),
        row("KS1324", "Kindle 1324", 1324, 1986, Palette::Gray16),
        row("KS", "Kindle Scribe 1/2", 1860, 2480, Palette::Gray16),
        row("KCS", "Kindle Colorsoft", 1272, 1696, Palette::Gray16),
        row("KS3", "Kindle Scribe 3", 1986, 2648, Palette::Gray16),
        row("KSCS", "Kindle Scribe Colorsoft", 1986, 2648, Palette::Gray16),
        row("KoMT", "Kobo Mini/Touch", 600, 800, Palette::Gray16),
        row("KoG", "Kobo Glo", 768, 1024, Palette::Gray16),
        row("KoGHD", "Kobo Glo HD", 1072, 1448, Palette::Gray16),
        row("KoA", "Kobo Aura", 758, 1024, Palette::Gray16),
        row("KoAHD", "Kobo Aura HD", 1080, 1440, Palette::Gray16),
        row("KoAH2O", "Kobo Aura H2O", 1080, 1430, Palette::Gray16),
        row("KoAO", "Kobo Aura ONE", 1404, 1872, Palette::Gray16),
        row("KoN", "Kobo Nia", 758, 1024, Palette::Gray16),
        row("KoC", "Kobo Clara HD/Kobo Clara 2E", 1072, 1448, Palette::Gray16),
        row("KoCC", "Kobo Clara Colour", 1072, 1448, Palette::Gray16),
        row("KoL", "Kobo Libra H2O/Kobo Libra 2", 1264, 1680, Palette::Gray16),
        row("KoLC", "Kobo Libra Colour", 1264, 1680, Palette::Gray16),
        row("KoF", "Kobo Forma", 1440, 1920, Palette::Gray16),
        row("KoS", "Kobo Sage", 1440, 1920, Palette::Gray16),
        row("KoE", "Kobo Elipsa", 1404, 1872, Palette::Gray16),
        row("Rmk1", "reMarkable 1", 1404, 1872, Palette::Gray16),
        row("Rmk2", "reMarkable 2", 1404, 1872, Palette::Gray16),
        row("RmkPP", "reMarkable Paper Pro", 1620, 2160, Palette::Gray16),
        row("RmkPPMove", "reMarkable Paper Pro Move", 954, 1696, Palette::Gray16),
        row("OTHER", "Other", 0, 0, Palette::Gray16),
    ]
}

fn push_row(v: &mut Vec<Profile>, code: &'static str, name: &'static str, w: u32, h: u32, pal: Palette)
    ensures
        final(v)@ == old(v)@.push(row(code, name, w, h, pal)),
{
    v.push(Profile { code, display_name: name, width: w, height: h, palette: pal, gamma_milli: 1000 });
}

/// Every built-in profile, in declaration order.
#[verifier::rlimit(50)]
pub fn profiles() -> (t: Vec<Profile>)
    ensures
        t@ == profile_table(),
{
    let mut v: Vec<Profile> = Vec::new();
    push_row(&mut v, "K1", "Kindle 1", 600, 670, Palette::Gray4);
    push_row(&mut v, "K2", "Kindle 2", 600, 670, Palette::Gray15);
    push_row(&mut v, "KDX", "Kindle DX/DXG", 824, 1000, Palette::Gray16);
    push_row(&mut v, "K34", "Kindle Keyboard/Touch", 600, 800, Palette::Gray16);
    push_row(&mut v, "K57", "Kindle 5/7", 600, 800, Palette::Gray16);
    push_row(&mut v, "KPW", "Kindle Paperwhite 1/2", 758, 1024, Palette::Gray16);
    push_row(&mut v, "KV", "Kindle Voyage", 1072, 1448, Palette::Gray16);
    push_row(&mut v, "KPW34", "Kindle Paperwhite 3/4/Oasis", 1072, 1448, Palette::Gray16);
    push_row(&mut v, "K810", "Kindle 8/10", 600, 800, Palette::Gray16);
    push_row(&mut v, "KO", "Kindle Oasis 2/3", 1264, 1680, Palette::Gray16);
    push_row(&mut v, "K11", "Kindle 11", 1072, 1448, Palette::Gray16);
    push_row(&mut v, "KPW5", "Kindle Paperwhite 5/Signature Edition", 1236, 1648, Palette::Gray16);
    push_row(&mut v, "KPW6", "Kindle Paperwhite 6", 1272, 1696, Palette::Gray16);
    push_row(&mut v, "KS1860", "Kindle 1860", 1860, 1920, Palette::Gray16);
    push_row(&mut v, "KS1920", "Kindle 1920", 1920, 1920, Palette::Gray16);
    push_row(&mut v, "KS1240", "Kindle 1240", 1240, 1860, Palette::Gray16);
    push_row(&mut v, "KS1324", "Kindle 1324", 1324, 1986, Palette::Gray16);
    push_row(&mut v, "KS", "Kindle Scribe 1/2", 1860, 2480, Palette::Gray16);
    push_row(&mut v, "KCS", "Kindle Colorsoft", 1272, 1696, Palette::Gray16);
    push_row(&mut v, "KS3", "Kindle Scribe 3", 1986, 2648, Palette::Gray16);
    push_row(&mut v, "KSCS", "Kindle Scribe Colorsoft", 1986, 2648, Palette::Gray16);
    push_row(&mut v, "KoMT", "Kobo Mini/Touch", 600, 800, Palette::Gray16);
    push_row(&mut v, "KoG", "Kobo Glo", 768, 1024, Palette::Gray16);
    push_row(&mut v, "KoGHD", "Kobo Glo HD", 1072, 1448, Palette::Gray16);
    push_row(&mut v, "KoA", "Kobo Aura", 758, 1024, Palette::Gray16);
    push_row(&mut v, "KoAHD", "Kobo Aura HD", 1080, 1440, Palette::Gray16);
    push_row(&mut v, "KoAH2O", "Kobo Aura H2O", 1080, 1430, Palette::Gray16);
    push_row(&mut v, "KoAO", "Kobo Aura ONE", 1404, 1872, Palette::Gray16);
    push_row(&mut v, "KoN", "Kobo Nia", 758, 1024, Palette::Gray16);
    push_row(&mut v, "KoC", "Kobo Clara HD/Kobo Clara 2E", 1072, 1448, Palette::Gray16);
    push_row(&mut v, "KoCC", "Kobo Clara Colour", 1072, 1448, Palette::Gray16);
    push_row(&mut v, "KoL", "Kobo Libra H2O/Kobo Libra 2", 1264, 1680, Palette::Gray16);
    push_row(&mut v, "KoLC", "Kobo Libra Colour", 1264, 1680, Palette::Gray16);
    push_row(&mut v, "KoF", "Kobo Forma", 1440, 1920, Palette::Gray16);
    push_row(&mut v, "KoS", "Kobo Sage", 1440, 1920, Palette::Gray16);
    push_row(&mut v, "KoE", "Kobo Elipsa", 1404, 1872, Palette::Gray16);
    push_row(&mut v, "Rmk1", "reMarkable 1", 1404, 1872, Palette::Gray16);
    push_row(&mut v, "Rmk2", "reMarkable 2", 1404, 1872, Palette::Gray16);
    push_row(&mut v, "RmkPP", "reMarkable Paper Pro", 1620, 2160, Palette::Gray16);
    push_row(&mut v, "RmkPPMove", "reMarkable Paper Pro Move", 954, 1696, Palette::Gray16);
    push_row(&mut v, "OTHER", "Other", 0, 0, Palette::Gray16);
    assert(v@ =~= profile_table());
    v
}

/// The family a profile code belongs to: `OTHER` is the generic fallback,
/// codes starting `Rmk` are reMarkable, `Ko` Kobo, the rest Kindle.
pub open spec fn family_of(code: Seq<char>) -> Family {
    if code == "OTHER"@ {
        Family::Other
    } else if 3 <= code.len() && code.take(3) == "Rmk"@ {
        Family::Remarkable
    } else if 2 <= code.len() && code.take(2) == "Ko"@ {
        Family::Kobo
    } else {
        Family::Kindle
    }
}

/// The index of the first profile in `t[..n]` whose code is `code`.
pub open spec fn first_code_index(t: Seq<Profile>, code: Seq<char>, n: int) -> Option<int>
    decreases n,
{
    if n <= 0 {
        None
    } else {
        match first_code_index(t, code, n - 1) {
            Some(i) => Some(i),
            None => if t[n - 1].code@ == code { Some(n - 1) } else { None },
        }
    }
}

proof fn lemma_first_code_index_stable(t: Seq<Profile>, code: Seq<char>, m: int, n: int)
    requires
        m <= n,
        first_code_index(t, code, m) is Some,
    ensures
        first_code_index(t, code, n) == first_code_index(t, code, m),
    decreases n - m,
{
    if m < n {
        lemma_first_code_index_stable(t, code, m, n - 1);
    }
}

/// The profile with code `code`, if any.
pub open spec fn profile_by_code(code: Seq<char>) -> Option<Profile> {
    match first_code_index(profile_table(), code, profile_table().len() as int) {
        Some(i) => Some(profile_table()[i]),
        None => None,
    }
}

impl Profile {
    pub fn family(&self) -> (f: Family)
        ensures
            f == family_of(self.code@),
    {
        proof {
            reveal_strlit("Rmk");
            reveal_strlit("Ko");
        }
        if str_eq(self.code, "OTHER") {
            Family::Other
        } else if str_starts_with(self.code, "Rmk") {
            Family::Remarkable
        } else if str_starts_with(self.code, "Ko") {
            Family::Kobo
        } else {
            Family::Kindle
        }
    }

    /// Looks up a profile by its short code (such as `"KV"` or `"KoAO"`).
    pub fn by_code(code: &str) -> (r: Option<Profile>)
        ensures
            r == profile_by_code(code@),
    {
        let t = profiles();
        let n = t.len();
        for i in 0..n
            invariant
                n == t@.len(),
                t@ == profile_table(),
                first_code_index(t@, code@, i as int) is None,
        {
            if str_eq(t[i].code, code) {
                proof {
                    lemma_first_code_index_stable(t@, code@, i as int + 1, n as int);
                }
                return Some(t[i]);
            }
        }
        None
    }

    /// The resolution to target, each dimension independently replaced by
    /// its override when one is given.
    pub fn effective_resolution(&self, width_override: Option<u32>, height_override: Option<u32>) -> (r: (
        u32,
        u32,
    ))
        ensures
            r.0 == (match width_override {
                Some(w) => w,
                None => self.width,
            }),
            r.1 == (match height_override {
                Some(h) => h,
                None => self.height,
            }),
    {
        let w = match width_override {
            Some(w) => w,
            None => self.width,
        };
        let h = match height_override {
            Some(h) => h,
            None => self.height,
        };
        (w, h)
    }
}

// ---------------------------------------------------------------------------
// "Did you mean" suggestions

pub open spec fn min3(x: int, y: int, z: int) -> int {
    if x <= y && x <= z {
        x
    } else if y <= z {
        y
    } else {
        z
    }
}

/// Levenshtein distance between the first `i` characters of `a` and the
/// first `j` of `b`.
pub open spec fn edit_distance(a: Seq<char>, b: Seq<char>, i: nat, j: nat) -> int
    decreases i + j,
{
    if i == 0 {
        j as int
    } else if j == 0 {
        i as int
    } else if a[i - 1] == b[j - 1] {
        edit_distance(a, b, (i - 1) as nat, (j - 1) as nat)
    } else {
        1 + min3(
            edit_distance(a, b, (i - 1) as nat, (j - 1) as nat),
            edit_distance(a, b, i, (j - 1) as nat),
            edit_distance(a, b, (i - 1) as nat, j),
        )
    }
}

/// Levenshtein distance between `a` and `b`.
pub open spec fn levenshtein_distance(a: Seq<char>, b: Seq<char>) -> int {
    edit_distance(a, b, a.len(), b.len())
}

proof fn lemma_edit_distance_bounds(a: Seq<char>, b: Seq<char>, i: nat, j: nat)
    ensures
        0 <= edit_distance(a, b, i, j) <= if i <= j { j as int } else { i as int },
    decreases i + j,
{
    if i > 0 && j > 0 {
        lemma_edit_distance_bounds(a, b, (i - 1) as nat, (j - 1) as nat);
        lemma_edit_distance_bounds(a, b, i, (j - 1) as nat);
        lemma_edit_distance_bounds(a, b, (i - 1) as nat, j);
    }
}

/// Levenshtein edit distance between two character sequences.
fn levenshtein(a: &[char], b: &[char]) -> (d: usize)
    ensures
        d as int == levenshtein_distance(a@, b@),
{
    let m = b.len();
    let n = a.len();
    // `first` is column 0 of the current row, `rest[k]` column `k + 1`.
    let mut first: usize = 0;
    let mut rest: Vec<usize> = Vec::new();
    for k in 0..m
        invariant
            m == b@.len(),
            rest@.len() == k,
            forall|q: int| 0 <= q < k ==> rest@[q] as int == edit_distance(a@, b@, 0, (q + 1) as nat),
    {
        rest.push(k + 1);
    }
    for i in 0..n
        invariant
            m == b@.len(),
            n == a@.len(),
            first as int == edit_distance(a@, b@, i as nat, 0),
            rest@.len() == m,
            forall|q: int| 0 <= q < m ==> rest@[q] as int == edit_distance(a@, b@, i as nat, (q + 1) as nat),
    {
        let mut prev_diag = first;
        first = i + 1;
        let mut left = first;
        for j in 0..m
            invariant
                m == b@.len(),
                n == a@.len(),
                i < n,
                rest@.len() == m,
                prev_diag as int == edit_distance(a@, b@, i as nat, j as nat),
                left as int == edit_distance(a@, b@, (i + 1) as nat, j as nat),
                forall|q: int| 0 <= q < j ==> rest@[q] as int == edit_distance(a@, b@, (i + 1) as nat, (q + 1) as nat),
                forall|q: int| j <= q < m ==> rest@[q] as int == edit_distance(a@, b@, i as nat, (q + 1) as nat),
        {
            proof {
                lemma_edit_distance_bounds(a@, b@, i as nat, j as nat);
            }
            let temp = rest[j];
            let val = if a[i] == b[j] {
                prev_diag
            } else {
                let mut lo = prev_diag;
                if left < lo {
                    lo = left;
                }
                if temp < lo {
                    lo = temp;
                }
                1 + lo
            };
            rest.set(j, val);
            left = val;
            prev_diag = temp;
        }
    }
    if m == 0 {
        first
    } else {
        rest[m - 1]
    }
}

/// Distance from the lowercased `code` to the lowercased code of profile `i`.
pub open spec fn profile_distance(code: Seq<char>, i: int) -> int {
    levenshtein_distance(lowercase(code), lowercase(profile_table()[i].code@))
}

/// The first of the profiles `0..n` nearest to `code`.
pub open spec fn nearest_index(code: Seq<char>, n: int) -> int
    decreases n,
{
    if n <= 1 {
        0
    } else {
        let k = nearest_index(code, n - 1);
        if profile_distance(code, n - 1) < profile_distance(code, k) {
            n - 1
        } else {
            k
        }
    }
}

/// How far a suggestion may be from a code of `byte_len` bytes: half its
/// length (counting at least 2), and at least 1.
pub open spec fn suggestion_threshold(byte_len: int) -> int {
    let l = if byte_len < 2 { 2 } else { byte_len };
    if l / 2 < 1 { 1 } else { l / 2 }
}

/// The code to suggest for an unknown `code`: the first nearest profile
/// code, when it is close enough to be a plausible typo.
pub open spec fn suggestion(code: Seq<char>, byte_len: int) -> Option<&'static str> {
    let k = nearest_index(code, profile_table().len() as int);
    if profile_distance(code, k) <= suggestion_threshold(byte_len) {
        Some(profile_table()[k].code)
    } else {
        None
    }
}

fn code_distance(code_lower: &[char], candidate: &'static str) -> (d: usize)
    ensures
        d as int == levenshtein_distance(code_lower@, lowercase(candidate@)),
{
    let lower = to_lowercase(candidate);
    let cl = chars_of(lower.as_str());
    levenshtein(code_lower, cl.as_slice())
}

impl Profile {
    /// The closest known profile code to an unrecognized one, for "did you
    /// mean" suggestions; `None` when nothing is close enough to be a
    /// plausible typo.
    pub fn closest_code(code: &str) -> (r: Option<&'static str>)
        ensures
            r == suggestion(code@, code.len() as int),
    {
        let lower = to_lowercase(code);
        let lc = chars_of(lower.as_str());
        let t = profiles();
        let n = t.len();
        let mut best: usize = 0;
        let mut best_d = code_distance(lc.as_slice(), t[0].code);
        for i in 1..n
            invariant
                n == t@.len(),
                t@ == profile_table(),
                lc@ == lowercase(code@),
                best as int == nearest_index(code@, i as int),
                0 <= best < i,
                best_d as int == profile_distance(code@, best as int),
        {
            let d = code_distance(lc.as_slice(), t[i].code);
            if d < best_d {
                best = i;
                best_d = d;
            }
        }
        let len = code.len();
        let l = if len < 2 { 2 } else { len };
        let threshold = if l / 2 < 1 { 1 } else { l / 2 };
        if best_d <= threshold {
            Some(t[best].code)
        } else {
            None
        }
    }
}

} // verus!
