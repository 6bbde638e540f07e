//! Per-round work: deriving it from mining info, scoring scoop windows, and
//! the worker's check-point decisions.

use crate::encoding::{be64_of, be_u16_of, hex_bytes, hex_decode, hex_decode_ok};
use crate::plots::Plot;
use crate::pool::{Error, MiningInfo};
use crate::shabal::{shabal256, shabal256_of};
use vstd::bytes::spec_u64_from_le_bytes;
use vstd::prelude::*;
use vstd::slice::slice_subrange;

verus! {

/// What one worker needs for one round: a 96-byte hash buffer whose first 32
/// bytes hold the generation signature (the other 64 take each nonce's scoop
/// before hashing), the round's scoop number, and the round parameters.
#[derive(Clone, Copy)]
pub struct MinerWork {
    pub hasher: [u8; 96],
    pub scoop_num: u16,
    pub height: u64,
    pub target_deadline: u64,
    pub base_target: u64,
}

/// A byte sequence fitted to exactly 32 bytes: truncated beyond 32, padded
/// with zeros beneath.
pub open spec fn sig32(bytes: Seq<u8>) -> Seq<u8> {
    Seq::new(32, |i: int| if i < bytes.len() { bytes[i] } else { 0u8 })
}

/// The round's scoop number: the last two bytes of
/// `shabal256(sig32 ++ be64(height))` read as a big-endian u16, mod 4096.
pub open spec fn derived_scoop_num(sig: Seq<u8>, height: u64) -> u16 {
    let d = shabal256_of(sig32(sig) + be64_of(height));
    (be_u16_of(d[30], d[31]) % 4096) as u16
}

impl MinerWork {
    /// Mining info derives work exactly when its generation signature is a
    /// hex string.
    pub open spec fn derivable(info: MiningInfo) -> bool {
        hex_decode_ok(info.generation_signature@)
    }

    /// `self` is the work derived from `info`: the hash buffer holds the
    /// decoded signature (fitted to 32 bytes) followed by 64 zero bytes, the
    /// scoop number follows the derivation rule, and the round parameters
    /// are echoed.
    pub open spec fn derived_from(self, info: MiningInfo) -> bool {
        let sig = hex_bytes(info.generation_signature@);
        &&& self.hasher@ == sig32(sig) + Seq::new(64, |i: int| 0u8)
        &&& self.scoop_num == derived_scoop_num(sig, info.height)
        &&& self.scoop_num < 4096
        &&& self.height == info.height
        &&& self.target_deadline == info.target_deadline
        &&& self.base_target == info.base_target
    }

    /// Derives the round's work from mining info; fails exactly when the
    /// generation signature is not a hex string.
    pub fn from_mining_info(info: &MiningInfo) -> (r: Result<MinerWork, Error>)
        ensures
            r is Ok <==> Self::derivable(*info),
            r matches Ok(w) ==> w.derived_from(*info),
            r matches Err(e) ==> e == Error::HexDecode,
    {
        let sig = match hex_decode(info.generation_signature.as_str()) {
            Some(v) => v,
            None => {
                return Err(Error::HexDecode);
            },
        };
        // The 40-byte scoop prefix: the signature fitted to 32 bytes, then
        // the height in big-endian.
        let mut prefix: Vec<u8> = Vec::new();
        let mut i: usize = 0;
        while i < 32
            invariant
                0 <= i <= 32,
                prefix@ =~= sig32(sig@).take(i as int),
            decreases 32 - i,
        {
            if i < sig.len() {
                let b = sig[i];
                prefix.push(b);
            } else {
                prefix.push(0u8);
            }
            i = i + 1;
            proof {
                assert(prefix@ =~= sig32(sig@).take(i as int));
            }
        }
        proof {
            assert(sig32(sig@).take(32) =~= sig32(sig@));
        }
        let hb = crate::encoding::u64_to_be_bytes(info.height);
        let mut j: usize = 0;
        while j < 8
            invariant
                0 <= j <= 8,
                hb@ == be64_of(info.height),
                prefix@ =~= sig32(sig@) + hb@.take(j as int),
            decreases 8 - j,
        {
            let b = hb[j];
            prefix.push(b);
            j = j + 1;
            proof {
                assert(prefix@ =~= sig32(sig@) + hb@.take(j as int));
            }
        }
        proof {
            assert(hb@.take(8) =~= hb@);
        }
        let digest = shabal256(prefix.as_slice());
        let scoop_raw: u16 = (digest[30] as u16) * 256 + (digest[31] as u16);
        let scoop_num: u16 = scoop_raw % 4096;
        let mut hasher = [0u8; 96];
        let mut k: usize = 0;
        while k < 32
            invariant
                0 <= k <= 32,
                hasher@.len() == 96,
                forall|m: int| 0 <= m < k ==> hasher@[m] == sig32(sig@)[m],
                forall|m: int| k <= m < 96 ==> hasher@[m] == 0u8,
            decreases 32 - k,
        {
            if k < sig.len() {
                let b = sig[k];
                hasher[k] = b;
            }
            k = k + 1;
        }
        proof {
            assert(hasher@ =~= sig32(sig@) + Seq::new(64, |i: int| 0u8));
        }
        Ok(
            MinerWork {
                hasher,
                scoop_num,
                height: info.height,
                target_deadline: info.target_deadline,
                base_target: info.base_target,
            },
        )
    }
}

/// The folder-local best so far: the lowest score seen, with the nonce and
/// account that produced it.
#[derive(Clone, Copy, Debug, PartialEq, Eq, Structural)]
pub struct Best {
    pub score: u64,
    pub nonce: u64,
    pub account_id: u64,
}

/// The score of one nonce: the first 8 bytes of
/// `shabal256(prefix ++ scoop)` read as a little-endian u64. Lower is
/// better.
pub open spec fn score_of(prefix: Seq<u8>, scoop: Seq<u8>) -> u64 {
    spec_u64_from_le_bytes(shabal256_of(prefix + scoop).subrange(0, 8))
}

/// The 64-byte scoop of the `i`-th nonce within a stagger window.
pub open spec fn window_scoop(window: Seq<u8>, i: int) -> Seq<u8> {
    window.subrange(64 * i, 64 * i + 64)
}

/// A candidate folded into the best: a strictly lower score replaces it, an
/// equal or higher one leaves it (so the earliest nonce wins ties).
pub open spec fn fold_best(b: Option<Best>, score: u64, nonce: u64, account_id: u64) -> Option<
    Best,
> {
    match b {
        Some(x) => if x.score <= score {
            b
        } else {
            Some(Best { score, nonce, account_id })
        },
        None => Some(Best { score, nonce, account_id }),
    }
}

/// The best after scanning the first `n` nonces of a window, in order,
/// starting from `init`. Nonce `i` of the window is numbered
/// `base_nonce + i` and belongs to `account_id`.
pub open spec fn scan_fold(
    prefix: Seq<u8>,
    window: Seq<u8>,
    base_nonce: u64,
    account_id: u64,
    init: Option<Best>,
    n: int,
) -> Option<Best>
    decreases n,
{
    if n <= 0 {
        init
    } else {
        fold_best(
            scan_fold(prefix, window, base_nonce, account_id, init, n - 1),
            score_of(prefix, window_scoop(window, n - 1)),
            (base_nonce + n - 1) as u64,
            account_id,
        )
    }
}

/// Scores every nonce of one stagger window and folds it into the best:
/// `window` holds one 64-byte scoop per nonce, `prefix` the 32-byte
/// generation signature, and the window's nonces are numbered from
/// `base_nonce`.
pub fn scan_window(
    prefix: &[u8],
    window: &[u8],
    base_nonce: u64,
    account_id: u64,
    best: &mut Option<Best>,
)
    requires
        prefix@.len() == 32,
        window@.len() % 64 == 0,
        base_nonce + window@.len() / 64 <= u64::MAX,
    ensures
        *final(best) == scan_fold(
            prefix@,
            window@,
            base_nonce,
            account_id,
            *old(best),
            window@.len() as int / 64,
        ),
{
    let count: usize = window.len() / 64;
    proof {
        vstd::arithmetic::div_mod::lemma_fundamental_div_mod(window@.len() as int, 64);
        assert(window@.len() == 64 * count);
    }
    let mut buf: Vec<u8> = Vec::new();
    let mut p: usize = 0;
    while p < 32
        invariant
            prefix@.len() == 32,
            0 <= p <= 32,
            buf@ =~= prefix@.take(p as int),
        decreases 32 - p,
    {
        let b = prefix[p];
        buf.push(b);
        p = p + 1;
        proof {
            assert(buf@ =~= prefix@.take(p as int));
        }
    }
    let mut q: usize = 0;
    while q < 64
        invariant
            prefix@.len() == 32,
            buf@.len() == 32 + q,
            buf@.take(32) =~= prefix@,
            0 <= q <= 64,
        decreases 64 - q,
    {
        buf.push(0u8);
        q = q + 1;
    }
    let mut i: usize = 0;
    while i < count
        invariant
            prefix@.len() == 32,
            window@.len() == 64 * count,
            count <= usize::MAX / 64,
            base_nonce + count <= u64::MAX,
            0 <= i <= count,
            buf@.len() == 96,
            buf@.take(32) =~= prefix@,
            *best == scan_fold(prefix@, window@, base_nonce, account_id, *old(best), i as int),
        decreases count - i,
    {
        let mut j: usize = 0;
        while j < 64
            invariant
                window@.len() == 64 * count,
                count <= usize::MAX / 64,
                i < count,
                0 <= j <= 64,
                buf@.len() == 96,
                buf@.take(32) =~= prefix@,
                forall|m: int| 0 <= m < j ==> #[trigger] buf@[32 + m] == window@[64 * i + m],
            decreases 64 - j,
        {
            let b = window[64 * i + j];
            buf.set(32 + j, b);
            j = j + 1;
        }
        proof {
            let scoop = prefix@ + window_scoop(window@, i as int);
            assert forall|idx: int| 32 <= idx < 96 implies buf@[idx] == scoop[idx] by {
                assert(buf@[32 + (idx - 32)] == window@[64 * i + (idx - 32)]);
            }
            assert forall|idx: int| 0 <= idx < 32 implies buf@[idx] == scoop[idx] by {
                assert(buf@.take(32)[idx] == prefix@[idx]);
            }
            assert(buf@ =~= scoop);
        }
        let digest = shabal256(buf.as_slice());
        let digest_slice = digest.as_slice();
        let head = slice_subrange(digest_slice, 0, 8);
        let score = vstd::bytes::u64_from_le_bytes(head);
        let nonce = base_nonce + (i as u64);
        let replace = match &*best {
            Some(x) => x.score > score,
            None => true,
        };
        if replace {
            *best = Some(Best { score, nonce, account_id });
        }
        i = i + 1;
    }
}

/// The scan fold computes a true minimum: the result's score is no higher
/// than the starting best or any scanned nonce's score, and it is attained
/// by one of them, with that nonce's number and account.
pub proof fn lemma_scan_fold_min(
    prefix: Seq<u8>,
    window: Seq<u8>,
    base_nonce: u64,
    account_id: u64,
    init: Option<Best>,
    n: int,
)
    requires
        0 <= n,
        base_nonce + n <= u64::MAX + 1,
    ensures
        scan_fold(prefix, window, base_nonce, account_id, init, n) is Some <==> (init is Some || n
            >= 1),
        scan_fold(prefix, window, base_nonce, account_id, init, n) matches Some(r) ==> {
            &&& forall|i: int|
                0 <= i < n ==> r.score <= #[trigger] score_of(prefix, window_scoop(window, i))
            &&& init matches Some(b) ==> r.score <= b.score
            &&& (init == Some(r) || exists|i: int|
                0 <= i < n && r.score == #[trigger] score_of(prefix, window_scoop(window, i))
                    && r.nonce == base_nonce + i && r.account_id == account_id)
        },
    decreases n,
{
    if n > 0 {
        lemma_scan_fold_min(prefix, window, base_nonce, account_id, init, n - 1);
        let prev = scan_fold(prefix, window, base_nonce, account_id, init, n - 1);
        let cur = scan_fold(prefix, window, base_nonce, account_id, init, n);
        let s = score_of(prefix, window_scoop(window, n - 1));
        let kept = prev matches Some(x) && x.score <= s;
        if !kept {
            let r = cur->0;
            assert(r.score == s && r.nonce == base_nonce + (n - 1) && r.account_id == account_id);
            assert(exists|i: int|
                0 <= i < n && r.score == #[trigger] score_of(prefix, window_scoop(window, i))
                    && r.nonce == base_nonce + i && r.account_id == account_id) by {
                assert(0 <= n - 1 < n && r.score == score_of(prefix, window_scoop(window, n - 1))
                    && r.nonce == base_nonce + (n - 1) && r.account_id == account_id);
            }
        }
    }
}

/// The plot fold computes a true minimum: its score is no higher than the
/// starting best or the score of any nonce in any stagger block it scanned,
/// and it is empty only when it started empty and no block fit the file.
pub proof fn lemma_scan_plot_fold_min(
    data: Seq<u8>,
    p: Plot,
    prefix: Seq<u8>,
    scoop_num: u16,
    init: Option<Best>,
    k: int,
)
    requires
        p.wf(),
        0 <= k <= p.spec_stagger_count(),
        p.start_nonce + p.nonce_count <= u64::MAX,
    ensures
        scan_plot_fold(data, p, prefix, scoop_num, init, k) is None <==> (init is None && forall|
            m: int,
        |
            0 <= m < k ==> !plot_fits(p, scoop_num, data.len() as int, m)),
        scan_plot_fold(data, p, prefix, scoop_num, init, k) matches Some(r) ==> {
            &&& (init matches Some(b) ==> r.score <= b.score)
            &&& forall|m: int, i: int|
                0 <= m < k && plot_fits(p, scoop_num, data.len() as int, m) && 0 <= i
                    < p.stagger_size ==> r.score <= #[trigger] score_of(
                    prefix,
                    window_scoop(plot_window(data, p, scoop_num, m), i),
                )
        },
    decreases k,
{
    if k > 0 {
        lemma_scan_plot_fold_min(data, p, prefix, scoop_num, init, k - 1);
        let prev = scan_plot_fold(data, p, prefix, scoop_num, init, k - 1);
        if plot_fits(p, scoop_num, data.len() as int, k - 1) {
            lemma_stagger_nonce_bound(p, k - 1);
            let base = (p.start_nonce + (k - 1) * p.stagger_size) as u64;
            lemma_scan_fold_min(
                prefix,
                plot_window(data, p, scoop_num, k - 1),
                base,
                p.account_id,
                prev,
                p.stagger_size as int,
            );
        }
    }
}

/// Stagger block `k`'s scoop window lies within the first `file_len` bytes
/// of the plot file.
pub open spec fn plot_fits(p: Plot, scoop_num: u16, file_len: int, k: int) -> bool {
    p.spec_window_offset(scoop_num, k) + p.spec_window_len() <= file_len
}

/// The bytes of stagger block `k`'s scoop window within the plot file.
pub open spec fn plot_window(data: Seq<u8>, p: Plot, scoop_num: u16, k: int) -> Seq<u8> {
    data.subrange(
        p.spec_window_offset(scoop_num, k),
        p.spec_window_offset(scoop_num, k) + p.spec_window_len(),
    )
}

/// The best after scanning the first `k` stagger blocks of a plot, in
/// order. A block whose window reaches past the end of the file contributes
/// nothing (the scan breaks there, and every later block lies further still).
pub open spec fn scan_plot_fold(
    data: Seq<u8>,
    p: Plot,
    prefix: Seq<u8>,
    scoop_num: u16,
    init: Option<Best>,
    k: int,
) -> Option<Best>
    decreases k,
{
    if k <= 0 {
        init
    } else {
        let prev = scan_plot_fold(data, p, prefix, scoop_num, init, k - 1);
        if plot_fits(p, scoop_num, data.len() as int, k - 1) {
            scan_fold(
                prefix,
                plot_window(data, p, scoop_num, k - 1),
                (p.start_nonce + (k - 1) * p.stagger_size) as u64,
                p.account_id,
                prev,
                p.stagger_size as int,
            )
        } else {
            prev
        }
    }
}

/// Window offsets grow with the stagger index, so once one window reaches
/// past the end of the file, every later one does too.
proof fn lemma_plot_fits_monotone(p: Plot, scoop_num: u16, file_len: int, k0: int, k1: int)
    requires
        p.wf(),
        0 <= k0 <= k1,
        !plot_fits(p, scoop_num, file_len, k0),
    ensures
        !plot_fits(p, scoop_num, file_len, k1),
{
    let st = p.stagger_size as int;
    let plot = crate::PLOT_SIZE as int;
    assert(k0 * plot * st <= k1 * plot * st) by (nonlinear_arith)
        requires
            0 <= k0 <= k1,
            st >= 1,
            plot >= 1,
    ;
}

/// Once a stagger block's window reaches past the end of the file, the fold
/// never changes again.
proof fn lemma_scan_plot_fold_frozen(
    data: Seq<u8>,
    p: Plot,
    prefix: Seq<u8>,
    scoop_num: u16,
    init: Option<Best>,
    k0: int,
    k1: int,
)
    requires
        p.wf(),
        0 <= k0 <= k1,
        !plot_fits(p, scoop_num, data.len() as int, k0),
    ensures
        scan_plot_fold(data, p, prefix, scoop_num, init, k1) == scan_plot_fold(
            data,
            p,
            prefix,
            scoop_num,
            init,
            k0,
        ),
    decreases k1 - k0,
{
    if k1 > k0 {
        lemma_scan_plot_fold_frozen(data, p, prefix, scoop_num, init, k0, k1 - 1);
        lemma_plot_fits_monotone(p, scoop_num, data.len() as int, k0, k1 - 1);
    }
}

/// Every stagger block scanned stays inside the plot's nonce range.
proof fn lemma_stagger_nonce_bound(p: Plot, k: int)
    requires
        p.wf(),
        0 <= k < p.spec_stagger_count(),
    ensures
        0 <= k * p.stagger_size,
        k * p.stagger_size + p.stagger_size <= p.nonce_count,
{
    let st = p.stagger_size as int;
    let nc = p.nonce_count as int;
    vstd::arithmetic::div_mod::lemma_fundamental_div_mod(nc, st);
    vstd::arithmetic::mul::lemma_mul_inequality(k, nc / st - 1, st);
    assert((nc / st - 1) * st == (nc / st) * st - st) by (nonlinear_arith);
    assert(k * st >= 0) by (nonlinear_arith)
        requires
            k >= 0,
            st >= 1,
    ;
}

/// Scans one plot's data for one round, stagger block by stagger block, and
/// folds every nonce's score into the best. Stops early when a window would
/// reach past the end of the file (the caller logs and moves to the next
/// plot); returns whether the whole plot was scanned.
pub fn scan_plot_data(work: &MinerWork, plot: &Plot, data: &[u8], best: &mut Option<Best>) -> (completed:
    bool)
    requires
        plot.wf(),
        work.scoop_num < 4096,
        plot.start_nonce + plot.nonce_count <= u64::MAX,
    ensures
        *final(best) == scan_plot_fold(
            data@,
            *plot,
            work.hasher@.take(32),
            work.scoop_num,
            *old(best),
            plot.spec_stagger_count(),
        ),
        completed <==> forall|k: int|
            0 <= k < plot.spec_stagger_count() ==> plot_fits(
                *plot,
                work.scoop_num,
                data@.len() as int,
                k,
            ),
{
    let hasher_slice: &[u8] = work.hasher.as_slice();
    let prefix: &[u8] = slice_subrange(hasher_slice, 0, 32);
    let count = plot.stagger_count();
    let file_len: u64 = data.len() as u64;
    let ghost init_best: Option<Best> = *best;
    let mut k: u64 = 0;
    let mut past_end = false;
    while k < count && !past_end
        invariant
            plot.wf(),
            work.scoop_num < 4096,
            plot.start_nonce + plot.nonce_count <= u64::MAX,
            count == plot.spec_stagger_count(),
            file_len == data@.len(),
            data@.len() <= usize::MAX,
            prefix@ == work.hasher@.take(32),
            prefix@.len() == 32,
            0 <= k <= count,
            *best == scan_plot_fold(
                data@,
                *plot,
                prefix@,
                work.scoop_num,
                init_best,
                k as int,
            ),
            !past_end ==> forall|m: int|
                0 <= m < k ==> plot_fits(*plot, work.scoop_num, data@.len() as int, m),
            past_end ==> k < count && !plot_fits(*plot, work.scoop_num, data@.len() as int, k as int),
        decreases count - k, (if past_end { 0int } else { 1int }),
    {
        match plot.window(work.scoop_num, k, file_len) {
            Some((off, len)) => {
                proof {
                    lemma_stagger_nonce_bound(*plot, k as int);
                    assert(off + len <= data@.len());
                }
                let window: &[u8] = slice_subrange(data, off as usize, (off + len) as usize);
                let base_nonce: u64 = plot.start_nonce + k * plot.stagger_size;
                proof {
                    assert(window@.len() == plot.stagger_size * 64);
                    assert(window@.len() % 64 == 0 && window@.len() as int / 64
                        == plot.stagger_size as int) by (nonlinear_arith)
                        requires
                            window@.len() == plot.stagger_size * 64,
                    ;
                }
                scan_window(prefix, window, base_nonce, plot.account_id, best);
                proof {
                    assert(window@ == plot_window(data@, *plot, work.scoop_num, k as int));
                }
                k = k + 1;
            },
            None => {
                past_end = true;
            },
        }
    }
    if past_end {
        proof {
            lemma_scan_plot_fold_frozen(
                data@,
                *plot,
                prefix@,
                work.scoop_num,
                init_best,
                k as int,
                count as int,
            );
        }
        false
    } else {
        true
    }
}

/// The product `target_deadline * base_target`: the score bound a best must
/// beat before it is worth submitting.
pub open spec fn deadline_cap(work: MinerWork) -> int {
    work.target_deadline * work.base_target
}

/// Digests a non-blocking look at the worker's inbox, as the worker does at
/// each check point: a pending message becomes the next work and preempts the
/// current scan.
pub fn has_new_signature(received: Option<MinerWork>, next_work: &mut Option<MinerWork>) -> (r:
    bool)
    ensures
        *final(next_work) == received,
        r == (received is Some),
{
    match received {
        Some(work) => {
            *next_work = Some(work);
            true
        },
        None => {
            *next_work = None;
            false
        },
    }
}

/// Whether the current best is worth submitting at this check point: there
/// is one, its score beats `target_deadline * base_target`, and its nonce is
/// not the one already submitted for this round.
pub fn should_submit(best: &Option<Best>, last_submit: &Option<u64>, work: &MinerWork) -> (r: bool)
    ensures
        r == (best matches Some(b) && (b.score as int) < deadline_cap(*work) && Some(b.nonce)
            != *last_submit),
{
    match best {
        Some(b) => {
            proof {
                assert((work.target_deadline as int) * (work.base_target as int) <= u64::MAX as int
                    * u64::MAX as int) by (nonlinear_arith)
                    requires
                        work.target_deadline <= u64::MAX,
                        work.base_target <= u64::MAX,
                ;
            }
            let under_cap = (b.score as u128) < (work.target_deadline as u128) * (
            work.base_target as u128);
            let fresh = match last_submit {
                Some(n) => *n != b.nonce,
                None => true,
            };
            under_cap && fresh
        },
        None => false,
    }
}

/// Remembers the submitted nonce, but only once the pool accepted it: a
/// failed attempt leaves the record unchanged, so the nonce is retried at the
/// next check point.
pub fn record_submit(last_submit: &mut Option<u64>, nonce: u64, accepted: bool)
    ensures
        *final(last_submit) == if accepted {
            Some(nonce)
        } else {
            *old(last_submit)
        },
{
    if accepted {
        *last_submit = Some(nonce);
    }
}

/// One check point's submission attempts: up to three tries, stopping at the
/// first accepted one.
pub struct SubmitSession {
    pub tries_left: u8,
    pub submitted: bool,
}

impl SubmitSession {
    /// A fresh session: three tries, nothing submitted yet.
    pub fn begin() -> (r: SubmitSession)
        ensures
            r.tries_left == 3,
            !r.submitted,
    {
        SubmitSession { tries_left: 3, submitted: false }
    }

    /// Whether another attempt should be made: tries remain and none has
    /// been accepted.
    pub fn wants_attempt(&self) -> (r: bool)
        ensures
            r == (self.tries_left > 0 && !self.submitted),
    {
        self.tries_left > 0 && !self.submitted
    }

    /// Accounts for one attempt's outcome: a try is spent, and an accepted
    /// attempt ends the session.
    pub fn on_result(&mut self, accepted: bool)
        requires
            old(self).tries_left > 0,
        ensures
            final(self).tries_left == old(self).tries_left - 1,
            final(self).submitted == (old(self).submitted || accepted),
    {
        self.tries_left = self.tries_left - 1;
        if accepted {
            self.submitted = true;
        }
    }
}

} // verus!
