//! Plot files: their metadata, the geometry of scoop windows inside them,
//! and the catalog built from directory listings.
//!
//! A plot file stores `nonce_count` nonces of `PLOT_SIZE` bytes each,
//! interleaved by stagger: within stagger block `k`, the scoops with the same
//! scoop number sit side by side, so one round reads one contiguous window of
//! `stagger_size * SCOOP_SIZE` bytes per stagger block.

use vstd::arithmetic::div_mod::{
    lemma_div_pos_is_pos, lemma_fundamental_div_mod, lemma_mod_bound,
    lemma_mod_division_less_than_divisor, lemma_mod_multiples_basic,
};
use vstd::arithmetic::mul::lemma_mul_inequality;
use vstd::prelude::*;

verus! {

/// Metadata of one plot file, as encoded in its filename
/// `<account_id>_<start_nonce>_<nonce_count>_<stagger_size>`.
#[derive(Clone)]
pub struct Plot {
    pub path: String,
    pub account_id: u64,
    pub start_nonce: u64,
    pub nonce_count: u64,
    pub stagger_size: u64,
}

impl Plot {
    /// The plot's declared geometry is usable: staggers are non-empty and
    /// divide the nonce count evenly.
    pub open spec fn wf(self) -> bool {
        &&& self.stagger_size >= 1
        &&& self.nonce_count as int % self.stagger_size as int == 0
    }

    /// Number of stagger blocks in the plot.
    pub open spec fn spec_stagger_count(self) -> int {
        self.nonce_count as int / self.stagger_size as int
    }

    /// Number of stagger blocks in the plot.
    pub fn stagger_count(&self) -> (r: u64)
        requires
            self.wf(),
        ensures
            r == self.spec_stagger_count(),
    {
        self.nonce_count / self.stagger_size
    }

    /// Byte length of one scoop window: `SCOOP_SIZE` bytes per nonce in the
    /// stagger block.
    pub open spec fn spec_window_len(self) -> int {
        self.stagger_size * (crate::SCOOP_SIZE as int)
    }

    /// File offset of the scoop window for scoop `scoop_num` in stagger
    /// block `stagger_index`: the block's base plus the scoop's position
    /// within the block.
    pub open spec fn spec_window_offset(self, scoop_num: u16, stagger_index: int) -> int {
        stagger_index * (crate::PLOT_SIZE as int) * self.stagger_size + scoop_num
            * self.stagger_size * (crate::SCOOP_SIZE as int)
    }

    /// Locates the scoop window for `scoop_num` in stagger block
    /// `stagger_index` of a file `file_len` bytes long. Returns the window's
    /// offset and length, or `None` when the window would reach past the end
    /// of the file.
    pub fn window(&self, scoop_num: u16, stagger_index: u64, file_len: u64) -> (r: Option<
        (u64, u64),
    >)
        requires
            self.wf(),
            scoop_num < 4096,
            stagger_index < self.spec_stagger_count(),
        ensures
            r is Some <==> self.spec_window_offset(scoop_num, stagger_index as int)
                + self.spec_window_len() <= file_len,
            r matches Some(w) ==> w.0 == self.spec_window_offset(scoop_num, stagger_index as int)
                && w.1 == self.spec_window_len(),
    {
        proof {
            self.lemma_window_offset_bound(scoop_num, stagger_index);
        }
        let st = self.stagger_size as u128;
        let offset: u128 = (stagger_index as u128) * (crate::PLOT_SIZE as u128) * st + (
        scoop_num as u128) * st * (crate::SCOOP_SIZE as u128);
        let len: u128 = st * (crate::SCOOP_SIZE as u128);
        if offset + len <= file_len as u128 {
            Some((offset as u64, len as u64))
        } else {
            None
        }
    }

    /// The window offset and length stay within bounds a `u128` holds, and
    /// the offset of the last byte of the last window stays below
    /// `nonce_count * PLOT_SIZE`.
    proof fn lemma_window_offset_bound(self, scoop_num: u16, stagger_index: u64)
        requires
            self.wf(),
            scoop_num < 4096,
            stagger_index < self.spec_stagger_count(),
        ensures
            0 <= self.spec_window_offset(scoop_num, stagger_index as int),
            self.spec_window_offset(scoop_num, stagger_index as int) + self.spec_window_len()
                <= self.nonce_count * (crate::PLOT_SIZE as int),
    {
        let st = self.stagger_size as int;
        let nc = self.nonce_count as int;
        let k = stagger_index as int;
        let sc = scoop_num as int;
        let plot = crate::PLOT_SIZE as int;
        lemma_fundamental_div_mod(nc, st);
        // k <= nc / st - 1, so k * st <= nc - st.
        lemma_mul_inequality(k, nc / st - 1, st);
        assert((nc / st - 1) * st == (nc / st) * st - st) by (nonlinear_arith);
        assert(k * plot * st == (k * st) * plot) by (nonlinear_arith);
        lemma_mul_inequality(k * st, nc - st, plot);
        // The scoop sits strictly inside one stagger block:
        // sc * st * 64 + st * 64 <= 4096 * st * 64 == st * plot.
        assert(sc * st * 64 + st * 64 <= 4096 * st * 64) by (nonlinear_arith)
            requires
                sc <= 4095,
                st >= 1,
        ;
        assert(4096 * st * 64 == st * plot) by (nonlinear_arith)
            requires
                plot == 262144,
        ;
        assert(k * plot * st >= 0) by (nonlinear_arith)
            requires
                k >= 0,
                st >= 1,
                plot >= 1,
        ;
        assert(sc * st * 64 >= 0) by (nonlinear_arith)
            requires
                sc >= 0,
                st >= 1,
        ;
    }
}

/// Index of the first underscore at or after `from`, or the length when
/// there is none.
pub open spec fn first_us(s: Seq<char>, from: int) -> int
    decreases s.len() - from,
{
    if from < 0 || from >= s.len() {
        s.len() as int
    } else if s[from] == '_' {
        from
    } else {
        first_us(s, from + 1)
    }
}

/// `first_us` finds an underscore, skips none before it, and stays in range.
pub proof fn lemma_first_us(s: Seq<char>, from: int)
    requires
        0 <= from <= s.len(),
    ensures
        from <= first_us(s, from) <= s.len(),
        first_us(s, from) < s.len() ==> s[first_us(s, from)] == '_',
        forall|p: int| from <= p < first_us(s, from) ==> s[p] != '_',
    decreases s.len() - from,
{
    if from < s.len() && s[from] != '_' {
        lemma_first_us(s, from + 1);
    }
}

/// `first_us` is determined: a position with no underscore before it and an
/// underscore (or the end) at it is the one found.
pub proof fn lemma_first_us_at(s: Seq<char>, from: int, m: int)
    requires
        0 <= from <= m <= s.len(),
        forall|p: int| from <= p < m ==> s[p] != '_',
        m == s.len() || s[m] == '_',
    ensures
        first_us(s, from) == m,
    decreases m - from,
{
    if from < m {
        lemma_first_us_at(s, from + 1, m);
    }
}

/// What a file name parses to as plot metadata. The name must be exactly
/// four decimal u64 numerals separated by single underscores:
/// `<account_id>_<start_nonce>_<nonce_count>_<stagger_size>`.
pub open spec fn spec_parse_plot_name(s: Seq<char>) -> Option<(u64, u64, u64, u64)> {
    let i1 = first_us(s, 0);
    let i2 = first_us(s, i1 + 1);
    let i3 = first_us(s, i2 + 1);
    let i4 = first_us(s, i3 + 1);
    if i3 < s.len() && i4 == s.len() {
        match (
            crate::decimal::parse_u64_digits(s.subrange(0, i1)),
            crate::decimal::parse_u64_digits(s.subrange(i1 + 1, i2)),
            crate::decimal::parse_u64_digits(s.subrange(i2 + 1, i3)),
            crate::decimal::parse_u64_digits(s.subrange(i3 + 1, s.len() as int)),
        ) {
            (Some(a), Some(sn), Some(nc), Some(st)) => Some((a, sn, nc, st)),
            _ => None,
        }
    } else {
        None
    }
}

/// Index of the first underscore at or after `from`, or the length.
fn find_underscore(s: &str, from: usize) -> (r: usize)
    requires
        from <= s@.len(),
    ensures
        r == first_us(s@, from as int),
        from <= r <= s@.len(),
{
    proof {
        lemma_first_us(s@, from as int);
    }
    let len = s.unicode_len();
    let mut i = from;
    while i < len
        invariant
            from <= i <= len,
            len == s@.len(),
            first_us(s@, from as int) == first_us(s@, i as int),
        decreases len - i,
    {
        if s.get_char(i) == '_' {
            return i;
        }
        i = i + 1;
    }
    len
}

/// Parses a plot file name; `None` for any name that is not four
/// underscore-separated decimal u64 numerals.
pub fn parse_plot_name(s: &str) -> (r: Option<(u64, u64, u64, u64)>)
    ensures
        r == spec_parse_plot_name(s@),
{
    let len = s.unicode_len();
    let i1 = find_underscore(s, 0);
    if i1 == len {
        proof {
            lemma_first_us(s@, i1 as int);
        }
        return None;
    }
    let i2 = find_underscore(s, i1 + 1);
    if i2 == len {
        proof {
            lemma_first_us(s@, i2 as int);
        }
        return None;
    }
    let i3 = find_underscore(s, i2 + 1);
    if i3 == len {
        proof {
            lemma_first_us(s@, i3 as int);
        }
        return None;
    }
    let i4 = find_underscore(s, i3 + 1);
    if i4 != len {
        return None;
    }
    let a = crate::decimal::parse_u64(s, 0, i1);
    let sn = crate::decimal::parse_u64(s, i1 + 1, i2);
    let nc = crate::decimal::parse_u64(s, i2 + 1, i3);
    let st = crate::decimal::parse_u64(s, i3 + 1, len);
    match (a, sn, nc, st) {
        (Some(a), Some(sn), Some(nc), Some(st)) => Some((a, sn, nc, st)),
        _ => None,
    }
}

/// The canonical file name of a plot with the given metadata.
pub open spec fn spec_plot_name(a: u64, sn: u64, nc: u64, st: u64) -> Seq<char> {
    crate::decimal::dec_chars(a as int) + seq!['_'] + crate::decimal::dec_chars(sn as int)
        + seq!['_'] + crate::decimal::dec_chars(nc as int) + seq!['_'] + crate::decimal::dec_chars(
        st as int,
    )
}

/// Renders the canonical file name of a plot with the given metadata.
pub fn plot_name(a: u64, sn: u64, nc: u64, st: u64) -> (r: String)
    ensures
        r@ == spec_plot_name(a, sn, nc, st),
{
    let mut s = String::new();
    crate::decimal::push_decimal(&mut s, a);
    crate::strings::push_char(&mut s, '_');
    crate::decimal::push_decimal(&mut s, sn);
    crate::strings::push_char(&mut s, '_');
    crate::decimal::push_decimal(&mut s, nc);
    crate::strings::push_char(&mut s, '_');
    crate::decimal::push_decimal(&mut s, st);
    proof {
        assert(s@ =~= spec_plot_name(a, sn, nc, st));
    }
    s
}

/// A name decomposes into the given metadata: three underscores split it
/// into four decimal u64 numerals.
pub open spec fn plot_name_matches(s: Seq<char>, f: (u64, u64, u64, u64)) -> bool {
    exists|i: int, j: int, k: int|
        #![trigger s[i], s[j], s[k]]
        {
            &&& 0 <= i < j < k < s.len()
            &&& s[i] == '_' && s[j] == '_' && s[k] == '_'
            &&& crate::decimal::parse_u64_digits(s.subrange(0, i)) == Some(f.0)
            &&& crate::decimal::parse_u64_digits(s.subrange(i + 1, j)) == Some(f.1)
            &&& crate::decimal::parse_u64_digits(s.subrange(j + 1, k)) == Some(f.2)
            &&& crate::decimal::parse_u64_digits(s.subrange(k + 1, s.len() as int)) == Some(f.3)
        }
}

/// The parse is exactly the grammar: a name parses to metadata precisely
/// when it decomposes into it. In particular, a name the parser skips
/// decomposes no way at all.
pub proof fn lemma_parse_plot_name_exact(s: Seq<char>, f: (u64, u64, u64, u64))
    ensures
        plot_name_matches(s, f) <==> spec_parse_plot_name(s) == Some(f),
{
    if plot_name_matches(s, f) {
        let (i, j, k): (int, int, int) = choose|i: int, j: int, k: int|
            #![trigger s[i], s[j], s[k]]
            {
                &&& 0 <= i < j < k < s.len()
                &&& s[i] == '_' && s[j] == '_' && s[k] == '_'
                &&& crate::decimal::parse_u64_digits(s.subrange(0, i)) == Some(f.0)
                &&& crate::decimal::parse_u64_digits(s.subrange(i + 1, j)) == Some(f.1)
                &&& crate::decimal::parse_u64_digits(s.subrange(j + 1, k)) == Some(f.2)
                &&& crate::decimal::parse_u64_digits(s.subrange(k + 1, s.len() as int)) == Some(
                    f.3,
                )
            };
        assert forall|p: int| 0 <= p < i implies s[p] != '_' by {
            assert(crate::decimal::is_dec_digit(s.subrange(0, i)[p]));
        }
        assert forall|p: int| i + 1 <= p < j implies s[p] != '_' by {
            assert(crate::decimal::is_dec_digit(s.subrange(i + 1, j)[p - i - 1]));
        }
        assert forall|p: int| j + 1 <= p < k implies s[p] != '_' by {
            assert(crate::decimal::is_dec_digit(s.subrange(j + 1, k)[p - j - 1]));
        }
        assert forall|p: int| k + 1 <= p < s.len() implies s[p] != '_' by {
            assert(crate::decimal::is_dec_digit(s.subrange(k + 1, s.len() as int)[p - k - 1]));
        }
        lemma_first_us_at(s, 0, i);
        lemma_first_us_at(s, i + 1, j);
        lemma_first_us_at(s, j + 1, k);
        lemma_first_us_at(s, k + 1, s.len() as int);
    }
    if spec_parse_plot_name(s) == Some(f) {
        let i1 = first_us(s, 0);
        lemma_first_us(s, 0);
        let i2 = first_us(s, i1 + 1);
        let i3 = first_us(s, i2 + 1);
        // Each numeral is non-empty, so the underscores sit strictly apart.
        assert(s.subrange(0, i1).len() >= 1);
        lemma_first_us(s, i1 + 1);
        assert(s.subrange(i1 + 1, i2).len() >= 1);
        lemma_first_us(s, i2 + 1);
        assert(s.subrange(i2 + 1, i3).len() >= 1);
        assert(0 <= i1 < i2 < i3 < s.len());
        assert(s[i1] == '_' && s[i2] == '_' && s[i3] == '_');
        assert(plot_name_matches(s, f)) by {
            assert({
                &&& 0 <= i1 < i2 < i3 < s.len()
                &&& s[i1] == '_' && s[i2] == '_' && s[i3] == '_'
                &&& crate::decimal::parse_u64_digits(s.subrange(0, i1)) == Some(f.0)
                &&& crate::decimal::parse_u64_digits(s.subrange(i1 + 1, i2)) == Some(f.1)
                &&& crate::decimal::parse_u64_digits(s.subrange(i2 + 1, i3)) == Some(f.2)
                &&& crate::decimal::parse_u64_digits(s.subrange(i3 + 1, s.len() as int)) == Some(
                    f.3,
                )
            });
        }
    }
}

/// Parsing a plot's canonical file name yields exactly its metadata.
pub proof fn lemma_plot_name_round_trip(a: u64, sn: u64, nc: u64, st: u64)
    ensures
        spec_parse_plot_name(spec_plot_name(a, sn, nc, st)) == Some((a, sn, nc, st)),
{
    let sa = crate::decimal::dec_chars(a as int);
    let sb = crate::decimal::dec_chars(sn as int);
    let sc = crate::decimal::dec_chars(nc as int);
    let sd = crate::decimal::dec_chars(st as int);
    crate::decimal::lemma_dec_chars_round_trip(a as int);
    crate::decimal::lemma_dec_chars_round_trip(sn as int);
    crate::decimal::lemma_dec_chars_round_trip(nc as int);
    crate::decimal::lemma_dec_chars_round_trip(st as int);
    let s = spec_plot_name(a, sn, nc, st);
    let la = sa.len() as int;
    let lb = sb.len() as int;
    let lc = sc.len() as int;
    let ld = sd.len() as int;
    let i1 = la;
    let i2 = la + 1 + lb;
    let i3 = la + 1 + lb + 1 + lc;
    assert(s.len() == la + lb + lc + ld + 3);
    assert forall|p: int| 0 <= p < s.len() implies (s[p] == '_' <==> (p == i1 || p == i2 || p
        == i3)) by {
        if p < i1 {
            assert(s[p] == sa[p] && crate::decimal::is_dec_digit(sa[p]));
        } else if i1 < p && p < i2 {
            assert(s[p] == sb[p - i1 - 1] && crate::decimal::is_dec_digit(sb[p - i1 - 1]));
        } else if i2 < p && p < i3 {
            assert(s[p] == sc[p - i2 - 1] && crate::decimal::is_dec_digit(sc[p - i2 - 1]));
        } else if i3 < p {
            assert(s[p] == sd[p - i3 - 1] && crate::decimal::is_dec_digit(sd[p - i3 - 1]));
        }
    }
    lemma_first_us_at(s, 0, i1);
    lemma_first_us_at(s, i1 + 1, i2);
    lemma_first_us_at(s, i2 + 1, i3);
    lemma_first_us_at(s, i3 + 1, s.len() as int);
    assert(s.subrange(0, i1) =~= sa);
    assert(s.subrange(i1 + 1, i2) =~= sb);
    assert(s.subrange(i2 + 1, i3) =~= sc);
    assert(s.subrange(i3 + 1, s.len() as int) =~= sd);
}

/// A plot whose stagger spans all its nonces has exactly one stagger block.
pub proof fn lemma_single_stagger(p: Plot)
    requires
        p.wf(),
        p.stagger_size == p.nonce_count,
    ensures
        p.spec_stagger_count() == 1,
{
    assert(p.nonce_count as int / p.stagger_size as int == 1) by (nonlinear_arith)
        requires
            p.stagger_size == p.nonce_count,
            p.stagger_size >= 1,
    ;
}

/// The plot a directory entry stands for: its name parsed as plot metadata,
/// the name itself kept as the plot's path within its folder.
pub open spec fn plot_from_name(name: String) -> Option<Plot> {
    match spec_parse_plot_name(name@) {
        Some((a, sn, nc, st)) => Some(
            Plot {
                path: name,
                account_id: a,
                start_nonce: sn,
                nonce_count: nc,
                stagger_size: st,
            },
        ),
        None => None,
    }
}

/// The plots named by a folder's entries, in entry order; entries whose
/// names do not parse are skipped silently.
pub open spec fn folder_plots(entries: Seq<String>) -> Seq<Plot>
    decreases entries.len(),
{
    if entries.len() == 0 {
        Seq::empty()
    } else {
        folder_plots(entries.drop_last()) + match plot_from_name(entries.last()) {
            Some(p) => seq![p],
            None => Seq::empty(),
        }
    }
}

/// One folder of plots: the folder's path and the plots discovered in it,
/// each plot's `path` being its file name within the folder. A folder with
/// no plots is kept (its worker idles).
pub struct PlotFolder {
    pub path: String,
    pub plots: Vec<Plot>,
}

/// Every configured folder with its plots, in configuration order.
pub struct PlotFolders {
    pub folders: Vec<PlotFolder>,
}

/// The plots among a folder's directory entries, in entry order.
pub fn plots_from_entries(entries: &Vec<String>) -> (r: Vec<Plot>)
    ensures
        r@ == folder_plots(entries@),
{
    let mut r: Vec<Plot> = Vec::new();
    let mut i: usize = 0;
    while i < entries.len()
        invariant
            0 <= i <= entries@.len(),
            r@ =~= folder_plots(entries@.take(i as int)),
        decreases entries@.len() - i,
    {
        let name = &entries[i];
        match parse_plot_name(name.as_str()) {
            Some((a, sn, nc, st)) => {
                r.push(
                    Plot {
                        path: name.clone(),
                        account_id: a,
                        start_nonce: sn,
                        nonce_count: nc,
                        stagger_size: st,
                    },
                );
            },
            None => {},
        }
        i = i + 1;
        proof {
            assert(entries@.take(i as int).drop_last() =~= entries@.take(i as int - 1));
            assert(entries@.take(i as int).last() == entries@[i as int - 1]);
        }
    }
    proof {
        assert(entries@.take(entries@.len() as int) =~= entries@);
    }
    r
}

/// Builds the plot catalog from directory listings: one `(folder path,
/// entry names)` pair per configured folder, in configuration order.
pub fn get_plots(folder_entries: Vec<(String, Vec<String>)>) -> (r: PlotFolders)
    ensures
        r.folders@.len() == folder_entries@.len(),
        forall|f: int|
            0 <= f < folder_entries@.len() ==> (#[trigger] r.folders@[f]).path
                == folder_entries@[f].0 && r.folders@[f].plots@ == folder_plots(
                folder_entries@[f].1@,
            ),
{
    let mut folders: Vec<PlotFolder> = Vec::new();
    let mut i: usize = 0;
    while i < folder_entries.len()
        invariant
            0 <= i <= folder_entries@.len(),
            folders@.len() == i,
            forall|f: int|
                0 <= f < i ==> (#[trigger] folders@[f]).path == folder_entries@[f].0
                    && folders@[f].plots@ == folder_plots(folder_entries@[f].1@),
        decreases folder_entries@.len() - i,
    {
        let entry = &folder_entries[i];
        let plots = plots_from_entries(&entry.1);
        folders.push(PlotFolder { path: entry.0.clone(), plots });
        i = i + 1;
    }
    PlotFolders { folders }
}

/// Splits a file offset for a page-aligned mapping: the greatest
/// page-aligned offset not above it, and the slack to add back. The caller
/// maps at `aligned` and uses bytes from `extra` on.
pub fn align_offset(offset: u64, page_size: u64) -> (r: (u64, u64))
    requires
        page_size >= 1,
    ensures
        r.0 == offset - (offset as int % page_size as int),
        r.1 == offset as int % page_size as int,
        r.0 % page_size == 0,
        r.0 + r.1 == offset,
        r.1 < page_size,
{
    let extra = offset % page_size;
    proof {
        let o = offset as int;
        let p = page_size as int;
        lemma_fundamental_div_mod(o, p);
        lemma_mod_bound(o, p);
        lemma_div_pos_is_pos(o, p);
        assert(p * (o / p) >= 0) by (nonlinear_arith)
            requires
                p >= 1,
                o / p >= 0,
        ;
        assert((o - o % p) % p == 0) by {
            lemma_mod_multiples_basic(o / p, p);
            assert(p * (o / p) == (o / p) * p) by (nonlinear_arith);
        }
    }
    let aligned = offset - extra;
    (aligned, extra)
}

/// An over-mapped, page-aligned region contains the requested window intact:
/// the `len` bytes starting `extra` into the mapping are exactly the `len`
/// bytes at `offset` in the file.
pub proof fn lemma_aligned_window_bytes(file: Seq<u8>, offset: int, len: int, page_size: int)
    requires
        page_size >= 1,
        0 <= offset,
        0 <= len,
        offset + len <= file.len(),
    ensures
        file.subrange(offset - offset % page_size, offset + len).subrange(
            offset % page_size,
            offset % page_size + len,
        ) =~= file.subrange(offset, offset + len),
{
    lemma_mod_bound(offset, page_size);
    lemma_fundamental_div_mod(offset, page_size);
    lemma_mod_division_less_than_divisor(offset, page_size);
    assert(page_size * (offset / page_size) >= 0) by (nonlinear_arith)
        requires
            page_size >= 1,
            offset / page_size >= 0,
    ;
}

} // verus!
