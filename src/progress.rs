//! Reading the `key=value` progress report that the transcoder writes on its
//! standard output, one block per report, into `TranscodeProgress` values.
use vstd::prelude::*;
use vstd::utf8::*;
use crate::wire::TranscodeProgress;

verus! {

pub open spec fn is_digit(b: u8) -> bool {
    48 <= b <= 57
}

pub open spec fn all_digits(s: Seq<u8>) -> bool {
    forall|i: int| 0 <= i < s.len() ==> is_digit(#[trigger] s[i])
}

/// The number written by the decimal digits `s`.
pub open spec fn digits_value(s: Seq<u8>) -> nat
    decreases s.len(),
{
    if s.len() == 0 {
        0
    } else {
        digits_value(s.drop_last()) * 10 + (s.last() - 48) as nat
    }
}

/// A non-negative integer written in decimal digits, if it fits in a `u64`.
pub open spec fn uint_of(s: Seq<u8>) -> Option<u64> {
    if s.len() > 0 && all_digits(s) && digits_value(s) <= u64::MAX {
        Some(digits_value(s) as u64)
    } else {
        None
    }
}

/// Position of the first `c` in `s`, or `s.len()` when there is none.
pub open spec fn first_index_of(s: Seq<u8>, c: u8) -> int
    decreases s.len(),
{
    if s.len() == 0 {
        0
    } else if s[0] == c {
        0
    } else {
        1 + first_index_of(s.drop_first(), c)
    }
}

/// The first three digits after the point, in thousandths (missing digits count as zero).
pub open spec fn thousandths(f: Seq<u8>) -> nat {
    if f.len() >= 3 {
        digits_value(f.take(3))
    } else if f.len() == 2 {
        digits_value(f) * 10
    } else if f.len() == 1 {
        digits_value(f) * 100
    } else {
        0
    }
}

/// A non-negative decimal number such as `30`, `30.0` or `1.25`, in
/// thousandths, digits past the third after the point dropped.
pub open spec fn milli_of(s: Seq<u8>) -> Option<u64> {
    let dot = first_index_of(s, 46);
    let ip = s.take(dot);
    let fp = if dot < s.len() {
        s.skip(dot + 1)
    } else {
        Seq::empty()
    };
    if ip.len() > 0 && all_digits(ip) && all_digits(fp) && digits_value(ip) * 1000 + thousandths(
        fp,
    ) <= u64::MAX {
        Some((digits_value(ip) * 1000 + thousandths(fp)) as u64)
    } else {
        None
    }
}

pub open spec fn is_space(b: u8) -> bool {
    b == 32 || (9 <= b <= 13)
}

pub open spec fn trim_start(s: Seq<u8>) -> Seq<u8>
    decreases s.len(),
{
    if s.len() > 0 && is_space(s[0]) {
        trim_start(s.drop_first())
    } else {
        s
    }
}

pub open spec fn trim_end(s: Seq<u8>) -> Seq<u8>
    decreases s.len(),
{
    if s.len() > 0 && is_space(s.last()) {
        trim_end(s.drop_last())
    } else {
        s
    }
}

/// `s` without ASCII white space at either end.
pub open spec fn trimmed(s: Seq<u8>) -> Seq<u8> {
    trim_end(trim_start(s))
}

/// `s` without any trailing `x`.
pub open spec fn strip_x(s: Seq<u8>) -> Seq<u8>
    decreases s.len(),
{
    if s.len() > 0 && s.last() == 120 {
        strip_x(s.drop_last())
    } else {
        s
    }
}

/// The last value given to `key` in the block.
pub open spec fn lookup(block: Seq<(Seq<u8>, Seq<u8>)>, key: Seq<u8>) -> Option<Seq<u8>>
    decreases block.len(),
{
    if block.len() == 0 {
        None
    } else if block.last().0 == key {
        Some(block.last().1)
    } else {
        lookup(block.drop_last(), key)
    }
}

pub open spec fn opt_uint(v: Option<Seq<u8>>) -> Option<u64> {
    match v {
        Some(s) => uint_of(s),
        None => None,
    }
}

/// Frames per second, rounded half up to a whole number.
pub open spec fn fps_of(v: Option<Seq<u8>>) -> Option<u64> {
    match v {
        Some(s) => match milli_of(s) {
            Some(m) => Some(((m as nat + 500) / 1000) as u64),
            None => None,
        },
        None => None,
    }
}

pub open spec fn bitrate_of(v: Option<Seq<u8>>) -> Option<Seq<char>> {
    match v {
        Some(s) => if valid_utf8(trimmed(s)) {
            Some(decode_utf8(trimmed(s)))
        } else {
            None
        },
        None => None,
    }
}

pub open spec fn speed_of(v: Option<Seq<u8>>) -> Option<u64> {
    match v {
        Some(s) => milli_of(strip_x(trimmed(s))),
        None => None,
    }
}

/// Whole percent done, rounded up and capped at 100; 100 when the duration is zero.
pub open spec fn percentage_of(cur_us: Option<u64>, duration_us: u64) -> Option<u64> {
    match cur_us {
        Some(c) => Some(
            if duration_us == 0 {
                100
            } else {
                let p = (100 * c + duration_us - 1) / duration_us as int;
                if p > 100 {
                    100
                } else {
                    p as u64
                }
            },
        ),
        None => None,
    }
}

/// Time left at the reported speed: what remains of the duration divided by
/// the speed; none when the speed is zero or the time does not fit.
pub open spec fn eta_of(cur_us: Option<u64>, speed_milli: Option<u64>, duration_us: u64) -> Option<u64> {
    match (cur_us, speed_milli) {
        (Some(c), Some(s)) => if s == 0 {
            None
        } else {
            let remaining: int = if c >= duration_us {
                0
            } else {
                duration_us - c
            };
            let e = remaining * 1000 / s as int;
            if e <= u64::MAX {
                Some(e as u64)
            } else {
                None
            }
        },
        _ => None,
    }
}

pub open spec fn key_frame() -> Seq<u8> {
    seq![102u8, 114, 97, 109, 101]
}

pub open spec fn key_fps() -> Seq<u8> {
    seq![102u8, 112, 115]
}

pub open spec fn key_bitrate() -> Seq<u8> {
    seq![98u8, 105, 116, 114, 97, 116, 101]
}

pub open spec fn key_speed() -> Seq<u8> {
    seq![115u8, 112, 101, 101, 100]
}

/// `out_time_ms`: despite its name the transcoder writes microseconds there.
pub open spec fn key_out_time() -> Seq<u8> {
    seq![111u8, 117, 116, 95, 116, 105, 109, 101, 95, 109, 115]
}

pub open spec fn key_progress() -> Seq<u8> {
    seq![112u8, 114, 111, 103, 114, 101, 115, 115]
}

pub open spec fn word_end() -> Seq<u8> {
    seq![101u8, 110, 100]
}

/// The progress that a completed block reports.
pub open spec fn progress_of(block: Seq<(Seq<u8>, Seq<u8>)>, duration_us: u64) -> crate::wire::TranscodeProgressView {
    let cur = opt_uint(lookup(block, key_out_time()));
    let speed = speed_of(lookup(block, key_speed()));
    crate::wire::TranscodeProgressView {
        frame: opt_uint(lookup(block, key_frame())),
        fps: fps_of(lookup(block, key_fps())),
        cur_time_us: cur,
        percentage: percentage_of(cur, duration_us),
        eta_us: eta_of(cur, speed, duration_us),
        bitrate: bitrate_of(lookup(block, key_bitrate())),
        speed_milli: speed,
    }
}


proof fn lemma_digits_prefix(s: Seq<u8>, j: int)
    requires
        0 <= j <= s.len(),
        all_digits(s),
    ensures
        digits_value(s.take(j)) <= digits_value(s),
    decreases s.len(),
{
    if j < s.len() {
        assert(s.drop_last().take(j) =~= s.take(j));
        lemma_digits_prefix(s.drop_last(), j);
    } else {
        assert(s.take(j) =~= s);
    }
}

/// The integer written in `s[from..to]`.
fn uint_in(s: &[u8], from: usize, to: usize) -> (r: Option<u64>)
    requires
        from <= to <= s@.len(),
    ensures
        r == uint_of(s@.subrange(from as int, to as int)),
{
    let ghost sub = s@.subrange(from as int, to as int);
    if from == to {
        return None;
    }
    let mut acc: u64 = 0;
    let mut i: usize = from;
    while i < to
        invariant
            from <= i <= to <= s@.len(),
            sub == s@.subrange(from as int, to as int),
            all_digits(s@.subrange(from as int, i as int)),
            acc as nat == digits_value(s@.subrange(from as int, i as int)),
        decreases to - i,
    {
        let c = s[i];
        if c < 48 || c > 57 {
            assert(sub[i - from] == c);
            return None;
        }
        let d = (c - 48) as u64;
        let ghost next = s@.subrange(from as int, i + 1);
        assert(next.drop_last() =~= s@.subrange(from as int, i as int));
        assert(all_digits(next));
        if acc > (u64::MAX - d) / 10 {
            proof {
                if all_digits(sub) {
                    assert(sub.take(i + 1 - from) =~= next);
                    lemma_digits_prefix(sub, i + 1 - from);
                }
            }
            return None;
        }
        acc = acc * 10 + d;
        i = i + 1;
    }
    Some(acc)
}

/// Whether every byte of `s[from..to]` is a decimal digit.
fn digits_only(s: &[u8], from: usize, to: usize) -> (r: bool)
    requires
        from <= to <= s@.len(),
    ensures
        r == all_digits(s@.subrange(from as int, to as int)),
{
    let mut i: usize = from;
    while i < to
        invariant
            from <= i <= to <= s@.len(),
            all_digits(s@.subrange(from as int, i as int)),
        decreases to - i,
    {
        if s[i] < 48 || s[i] > 57 {
            assert(s@.subrange(from as int, to as int)[i - from] == s@[i as int]);
            return false;
        }
        assert(all_digits(s@.subrange(from as int, i + 1)));
        i = i + 1;
    }
    true
}

/// Where the first `c` stands in `s[from..to]`, counted from `from`.
fn find_in(s: &[u8], from: usize, to: usize, c: u8) -> (r: usize)
    requires
        from <= to <= s@.len(),
    ensures
        r == first_index_of(s@.subrange(from as int, to as int), c),
        r <= to - from,
{
    let mut i: usize = from;
    while i < to
        invariant
            from <= i <= to <= s@.len(),
            first_index_of(s@.subrange(from as int, to as int), c) == (i - from)
                + first_index_of(s@.subrange(i as int, to as int), c),
        decreases to - i,
    {
        if s[i] == c {
            return i - from;
        }
        assert(s@.subrange(i as int, to as int).drop_first() =~= s@.subrange(i + 1, to as int));
        i = i + 1;
    }
    i - from
}

/// The decimal number written in `s[from..to]`, in thousandths.
fn milli_in(s: &[u8], from: usize, to: usize) -> (r: Option<u64>)
    requires
        from <= to <= s@.len(),
    ensures
        r == milli_of(s@.subrange(from as int, to as int)),
{
    let ghost sub = s@.subrange(from as int, to as int);
    let dot = find_in(s, from, to, 46);
    let int_end = from + dot;
    assert(sub.take(dot as int) =~= s@.subrange(from as int, int_end as int));
    let frac_start = if int_end < to {
        int_end + 1
    } else {
        to
    };
    assert(frac_start < to ==> sub.skip(dot + 1) =~= s@.subrange(frac_start as int, to as int));
    let ghost fp = if dot < sub.len() {
        sub.skip(dot + 1)
    } else {
        Seq::<u8>::empty()
    };
    assert(fp =~= s@.subrange(frac_start as int, to as int));
    let ip = match uint_in(s, from, int_end) {
        None => {
            return None;
        },
        Some(v) => v,
    };
    if !digits_only(s, frac_start, to) {
        return None;
    }
    let flen = to - frac_start;
    let t: u64 = if flen >= 3 {
        let v = uint_in(s, frac_start, frac_start + 3);
        assert(fp.take(3) =~= s@.subrange(frac_start as int, frac_start + 3));
        assert(all_digits(fp.take(3)));
        proof {
            lemma_digits_bound3(fp.take(3));
        }
        match v {
            Some(x) => x,
            None => 0,
        }
    } else if flen == 2 {
        proof {
            lemma_digits_bound2(fp);
        }
        match uint_in(s, frac_start, to) {
            Some(x) => x * 10,
            None => 0,
        }
    } else if flen == 1 {
        proof {
            lemma_digits_bound1(fp);
        }
        match uint_in(s, frac_start, to) {
            Some(x) => x * 100,
            None => 0,
        }
    } else {
        0
    };
    assert(t as nat == thousandths(fp));
    let total: u128 = ip as u128 * 1000 + t as u128;
    if total > u64::MAX as u128 {
        None
    } else {
        Some(total as u64)
    }
}

proof fn lemma_digits_bound1(f: Seq<u8>)
    requires
        f.len() == 1,
        all_digits(f),
    ensures
        digits_value(f) <= 9,
{
    assert(f.drop_last().len() == 0);
    assert(is_digit(f[0]));
    assert(digits_value(f.drop_last()) == 0);
}

proof fn lemma_digits_bound2(f: Seq<u8>)
    requires
        f.len() == 2,
        all_digits(f),
    ensures
        digits_value(f) <= 99,
{
    assert(all_digits(f.drop_last()));
    lemma_digits_bound1(f.drop_last());
}

proof fn lemma_digits_bound3(f: Seq<u8>)
    requires
        f.len() == 3,
        all_digits(f),
    ensures
        digits_value(f) <= 999,
{
    assert(all_digits(f.drop_last()));
    lemma_digits_bound2(f.drop_last());
}


/// `s[from..to]` without ASCII white space at either end, as a range.
fn trim_range(s: &[u8], from: usize, to: usize) -> (r: (usize, usize))
    requires
        from <= to <= s@.len(),
    ensures
        from <= r.0 <= r.1 <= to,
        s@.subrange(r.0 as int, r.1 as int) == trimmed(s@.subrange(from as int, to as int)),
{
    let mut a: usize = from;
    while a < to && (s[a] == 32 || (9 <= s[a] && s[a] <= 13))
        invariant
            from <= a <= to <= s@.len(),
            trim_start(s@.subrange(from as int, to as int)) == trim_start(
                s@.subrange(a as int, to as int),
            ),
        decreases to - a,
    {
        assert(s@.subrange(a as int, to as int).drop_first() =~= s@.subrange(a + 1, to as int));
        a = a + 1;
    }
    assert(trim_start(s@.subrange(a as int, to as int)) == s@.subrange(a as int, to as int));
    let mut b: usize = to;
    while b > a && (s[b - 1] == 32 || (9 <= s[b - 1] && s[b - 1] <= 13))
        invariant
            a <= b <= to <= s@.len(),
            trim_end(s@.subrange(a as int, to as int)) == trim_end(s@.subrange(a as int, b as int)),
        decreases b - a,
    {
        assert(s@.subrange(a as int, b as int).drop_last() =~= s@.subrange(a as int, b - 1));
        b = b - 1;
    }
    (a, b)
}

/// `s[from..to]` without trailing `x`, as the end of the range.
fn strip_x_end(s: &[u8], from: usize, to: usize) -> (r: usize)
    requires
        from <= to <= s@.len(),
    ensures
        from <= r <= to,
        s@.subrange(from as int, r as int) == strip_x(s@.subrange(from as int, to as int)),
{
    let mut b: usize = to;
    while b > from && s[b - 1] == 120
        invariant
            from <= b <= to <= s@.len(),
            strip_x(s@.subrange(from as int, to as int)) == strip_x(
                s@.subrange(from as int, b as int),
            ),
        decreases b - from,
    {
        assert(s@.subrange(from as int, b as int).drop_last() =~= s@.subrange(from as int, b - 1));
        b = b - 1;
    }
    b
}

fn bytes_eq(a: &[u8], b: &[u8]) -> (r: bool)
    ensures
        r == (a@ == b@),
{
    if a.len() != b.len() {
        return false;
    }
    let mut i: usize = 0;
    while i < a.len()
        invariant
            i <= a@.len() == b@.len(),
            a@.take(i as int) == b@.take(i as int),
        decreases a@.len() - i,
    {
        if a[i] != b[i] {
            return false;
        }
        assert(a@.take(i + 1) =~= a@.take(i as int).push(a@[i as int]));
        assert(b@.take(i + 1) =~= b@.take(i as int).push(b@[i as int]));
        i = i + 1;
    }
    assert(a@.take(i as int) =~= a@);
    assert(b@.take(i as int) =~= b@);
    true
}

/// The key and value of a `key=value` line, split at the first `=`.
pub open spec fn split_kv(b: Seq<u8>) -> Option<(Seq<u8>, Seq<u8>)> {
    let i = first_index_of(b, 61);
    if i < b.len() {
        Some((b.take(i), b.skip(i + 1)))
    } else {
        None
    }
}

pub open spec fn block_view(v: Seq<(Vec<u8>, Vec<u8>)>) -> Seq<(Seq<u8>, Seq<u8>)> {
    Seq::new(v.len(), |i: int| (v[i].0@, v[i].1@))
}

/// Collects the lines of one progress report until the line that closes it.
pub struct ProgressParser {
    block: Vec<(Vec<u8>, Vec<u8>)>,
    duration_us: u64,
}

impl ProgressParser {
    /// The lines collected since the last report, in order.
    pub closed spec fn pending(&self) -> Seq<(Seq<u8>, Seq<u8>)> {
        block_view(self.block@)
    }

    /// The total duration of the media, in microseconds.
    pub closed spec fn duration(&self) -> u64 {
        self.duration_us
    }

    /// A parser for media of the given duration, in microseconds.
    pub fn new(duration_us: u64) -> (r: ProgressParser)
        ensures
            r.pending() == Seq::<(Seq<u8>, Seq<u8>)>::empty(),
            r.duration() == duration_us,
    {
        let r = ProgressParser { block: Vec::new(), duration_us };
        assert(r.pending() =~= Seq::<(Seq<u8>, Seq<u8>)>::empty());
        r
    }

    fn lookup_value(&self, key: &[u8]) -> (r: Option<usize>)
        ensures
            match r {
                None => lookup(self.pending(), key@) is None,
                Some(i) => i < self.block@.len() && lookup(self.pending(), key@) == Some(
                    self.block@[i as int].1@,
                ),
            },
    {
        let ghost bv = self.pending();
        let mut j: usize = self.block.len();
        assert(bv.take(j as int) =~= bv);
        while j > 0
            invariant
                j <= self.block@.len(),
                bv == self.pending(),
                lookup(bv, key@) == lookup(bv.take(j as int), key@),
            decreases j,
        {
            let entry = &self.block[j - 1];
            assert(bv.take(j as int).drop_last() =~= bv.take(j - 1));
            assert(bv.take(j as int).last() == (entry.0@, entry.1@));
            if bytes_eq(entry.0.as_slice(), key) {
                return Some(j - 1);
            }
            j = j - 1;
        }
        None
    }

    fn uint_value(&self, key: &[u8]) -> (r: Option<u64>)
        ensures
            r == opt_uint(lookup(self.pending(), key@)),
    {
        match self.lookup_value(key) {
            None => None,
            Some(i) => {
                let v = self.block[i].1.as_slice();
                assert(v@.subrange(0, v@.len() as int) =~= v@);
                uint_in(v, 0, v.len())
            },
        }
    }

    fn fps_value(&self) -> (r: Option<u64>)
        ensures
            r == fps_of(lookup(self.pending(), key_fps())),
    {
        let key: [u8; 3] = [102, 112, 115];
        assert(key@ =~= key_fps());
        match self.lookup_value(&key) {
            None => None,
            Some(i) => {
                let v = self.block[i].1.as_slice();
                assert(v@.subrange(0, v@.len() as int) =~= v@);
                match milli_in(v, 0, v.len()) {
                    None => None,
                    Some(m) => Some(((m as u128 + 500) / 1000) as u64),
                }
            },
        }
    }

    fn speed_value(&self) -> (r: Option<u64>)
        ensures
            r == speed_of(lookup(self.pending(), key_speed())),
    {
        let key: [u8; 5] = [115, 112, 101, 101, 100];
        assert(key@ =~= key_speed());
        match self.lookup_value(&key) {
            None => None,
            Some(i) => {
                let v = self.block[i].1.as_slice();
                let (a, b) = trim_range(v, 0, v.len());
                assert(v@.subrange(0, v@.len() as int) =~= v@);
                let e = strip_x_end(v, a, b);
                milli_in(v, a, e)
            },
        }
    }

    fn bitrate_value(&self) -> (r: Option<String>)
        ensures
            crate::wire::opt_str_view(r) == bitrate_of(lookup(self.pending(), key_bitrate())),
    {
        let key: [u8; 7] = [98, 105, 116, 114, 97, 116, 101];
        assert(key@ =~= key_bitrate());
        match self.lookup_value(&key) {
            None => None,
            Some(i) => {
                let v = self.block[i].1.as_slice();
                let (a, b) = trim_range(v, 0, v.len());
                assert(v@.subrange(0, v@.len() as int) =~= v@);
                let t = crate::codec::utf8_text(vstd::slice::slice_subrange(v, a, b));
                proof {
                    if t is Some {
                        encode_utf8_valid_utf8(t->Some_0@);
                        encode_utf8_decode_utf8(t->Some_0@);
                    }
                }
                t
            },
        }
    }

    /// The report that the lines collected so far make.
    fn report(&self) -> (r: TranscodeProgress)
        ensures
            r@ == progress_of(self.pending(), self.duration()),
    {
        let k_frame: [u8; 5] = [102, 114, 97, 109, 101];
        assert(k_frame@ =~= key_frame());
        let k_time: [u8; 11] = [111, 117, 116, 95, 116, 105, 109, 101, 95, 109, 115];
        assert(k_time@ =~= key_out_time());
        let frame = self.uint_value(&k_frame);
        let fps = self.fps_value();
        let cur = self.uint_value(&k_time);
        let speed = self.speed_value();
        let bitrate = self.bitrate_value();
        let d = self.duration_us;
        let percentage = match cur {
            None => None,
            Some(c) => if d == 0 {
                Some(100)
            } else {
                let p: u128 = (100 * c as u128 + d as u128 - 1) / d as u128;
                if p > 100 {
                    Some(100)
                } else {
                    Some(p as u64)
                }
            },
        };
        let eta = match (cur, speed) {
            (Some(c), Some(s)) => if s == 0 {
                None
            } else {
                let remaining: u64 = if c >= d {
                    0
                } else {
                    d - c
                };
                let e: u128 = remaining as u128 * 1000 / s as u128;
                if e <= u64::MAX as u128 {
                    Some(e as u64)
                } else {
                    None
                }
            },
            _ => None,
        };
        TranscodeProgress {
            frame,
            fps,
            cur_time_us: cur,
            percentage,
            eta_us: eta,
            bitrate,
            speed_milli: speed,
        }
    }

    /// Takes one line of the transcoder's output. A `progress=...` line closes
    /// the block: the report is returned, the block emptied, and the flag says
    /// whether the value was `end`. Any other `key=value` line is collected;
    /// a line without `=` is ignored.
    pub fn feed_line(&mut self, line: &str) -> (r: (Option<TranscodeProgress>, bool))
        ensures
            final(self).duration() == old(self).duration(),
            match split_kv(encode_utf8(line@)) {
                None => final(self).pending() == old(self).pending() && r.0 is None && !r.1,
                Some((k, v)) => if k == key_progress() {
                    &&& r.0 matches Some(p) && p@ == progress_of(
                        old(self).pending(),
                        old(self).duration(),
                    )
                    &&& r.1 == (v == word_end())
                    &&& final(self).pending() == Seq::<(Seq<u8>, Seq<u8>)>::empty()
                } else {
                    &&& final(self).pending() == old(self).pending().push((k, v))
                    &&& r.0 is None
                    &&& !r.1
                },
            },
    {
        let b = line.as_bytes();
        assert(b@.subrange(0, b@.len() as int) =~= b@);
        let eq = find_in(b, 0, b.len(), 61);
        if eq >= b.len() {
            return (None, false);
        }
        assert(b@.take(eq as int) =~= b@.subrange(0, eq as int));
        assert(b@.skip(eq + 1) =~= b@.subrange(eq + 1, b@.len() as int));
        let key = vstd::slice::slice_subrange(b, 0, eq);
        let value = vstd::slice::slice_subrange(b, eq + 1, b.len());
        let k_progress: [u8; 8] = [112, 114, 111, 103, 114, 101, 115, 115];
        assert(k_progress@ =~= key_progress());
        if bytes_eq(key, &k_progress) {
            let p = self.report();
            let k_end: [u8; 3] = [101, 110, 100];
            assert(k_end@ =~= word_end());
            let end = bytes_eq(value, &k_end);
            self.block = Vec::new();
            assert(self.pending() =~= Seq::<(Seq<u8>, Seq<u8>)>::empty());
            (Some(p), end)
        } else {
            let ghost before = self.pending();
            self.block.push((vstd::slice::slice_to_vec(key), vstd::slice::slice_to_vec(value)));
            assert(self.pending() =~= before.push((key@, value@)));
            (None, false)
        }
    }
}

} // verus!
