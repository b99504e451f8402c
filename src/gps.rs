//! GPS fixes: the shared location cache and its update policy, and the
//! decoding of NMEA position sentences into fixed-point fixes.
use vstd::prelude::*;
use crate::frame::contains_byte;

verus! {

/// Fixed-point scale of every value in a fix: one unit is 10^-9 (of a
/// degree for latitude and longitude, of the NMEA time field for time).
pub const UNITS: i64 = 1_000_000_000;

/// One GPS sample. Latitude and longitude are in nanodegrees, positive to
/// the north and east; `time` is the NMEA `hhmmss.sss` field scaled by
/// [`UNITS`]. `lat == 0 && lon == 0` means that no fix was obtained yet.
#[derive(Debug, Clone, Copy, PartialEq, Eq, Structural)]
pub struct GpsDataDecoded {
    pub time: i64,
    pub lat: i64,
    pub lon: i64,
}

/// The "no fix yet" sentinel: both coordinates zero.
pub open spec fn is_no_fix(f: GpsDataDecoded) -> bool {
    f.lat == 0 && f.lon == 0
}

/// Whether a newly read fix replaces the cached one: it must report a
/// position, and one other than the cached position.
pub open spec fn replaces(cached: GpsDataDecoded, new: GpsDataDecoded) -> bool {
    !is_no_fix(new) && (new.lat != cached.lat || new.lon != cached.lon)
}

/// The cached fix after offering it `fix`.
pub open spec fn spec_publish(cached: GpsDataDecoded, fix: GpsDataDecoded) -> GpsDataDecoded {
    if replaces(cached, fix) {
        fix
    } else {
        cached
    }
}

/// The cached fix after offering it each fix of `fixes` in turn.
pub open spec fn publish_all(cached: GpsDataDecoded, fixes: Seq<GpsDataDecoded>) -> GpsDataDecoded
    decreases fixes.len(),
{
    if fixes.len() == 0 {
        cached
    } else {
        publish_all(spec_publish(cached, fixes[0]), fixes.drop_first())
    }
}

impl GpsDataDecoded {
    /// The sentinel fix `(0, 0, 0)`.
    pub fn zero() -> (r: GpsDataDecoded)
        ensures
            r.time == 0 && r.lat == 0 && r.lon == 0,
    {
        GpsDataDecoded { time: 0, lat: 0, lon: 0 }
    }

    /// Whether this is the "no fix yet" sentinel.
    pub fn is_no_fix(&self) -> (r: bool)
        ensures
            r == is_no_fix(*self),
    {
        self.lat == 0 && self.lon == 0
    }
}

/// The most recent GPS fix. Readers take it by value; the writer offers new
/// fixes through [`GpsCache::publish`], which never blanks a real position.
#[derive(Debug, Clone, Copy)]
pub struct GpsCache {
    fix: GpsDataDecoded,
}

impl View for GpsCache {
    type V = GpsDataDecoded;

    closed spec fn view(&self) -> GpsDataDecoded {
        self.fix
    }
}

impl GpsCache {
    /// A cache seeded with the sentinel `(0, 0, 0)`.
    pub fn new() -> (r: GpsCache)
        ensures
            r@ == (GpsDataDecoded { time: 0, lat: 0, lon: 0 }),
    {
        GpsCache { fix: GpsDataDecoded::zero() }
    }

    /// A copy of the cached fix.
    pub fn snapshot(&self) -> (r: GpsDataDecoded)
        ensures
            r == self@,
    {
        self.fix
    }

    /// Offers a newly read fix; it is kept only if it reports a position
    /// that differs from the cached one. Returns whether it was kept.
    pub fn publish(&mut self, fix: GpsDataDecoded) -> (r: bool)
        ensures
            r == replaces(old(self)@, fix),
            final(self)@ == spec_publish(old(self)@, fix),
    {
        if !fix.is_no_fix() && (fix.lat != self.fix.lat || fix.lon != self.fix.lon) {
            self.fix = fix;
            true
        } else {
            false
        }
    }
}

/// Once the cache holds a real position, no sequence of offered fixes
/// (sentinels included) brings it back to the "no fix" sentinel.
pub proof fn lemma_position_never_blanked(cached: GpsDataDecoded, fixes: Seq<GpsDataDecoded>)
    requires
        !is_no_fix(cached),
    ensures
        !is_no_fix(publish_all(cached, fixes)),
    decreases fixes.len(),
{
    if fixes.len() > 0 {
        lemma_position_never_blanked(spec_publish(cached, fixes[0]), fixes.drop_first());
    }
}

/// Bound on the integer part of a number field.
pub const MAX_INTEGER_PART: u64 = 1_000_000_000;

pub open spec fn is_digit(b: u8) -> bool {
    0x30 <= b <= 0x39
}

pub open spec fn all_digits(s: Seq<u8>) -> bool {
    forall|i: int| 0 <= i < s.len() ==> is_digit(#[trigger] s[i])
}

/// The value of a run of decimal digits.
pub open spec fn digits_value(s: Seq<u8>) -> int
    decreases s.len(),
{
    if s.len() == 0 {
        0
    } else {
        10 * digits_value(s.drop_last()) + (s.last() - 0x30)
    }
}

pub open spec fn pow10(k: nat) -> int
    decreases k,
{
    if k == 0 {
        1
    } else {
        10 * pow10((k - 1) as nat)
    }
}

/// The digits `s` read as the fraction `0.s`, scaled by `10^k` and
/// truncated.
pub open spec fn fraction_value(s: Seq<u8>, k: nat) -> int
    decreases k,
{
    if k == 0 || s.len() == 0 {
        0
    } else {
        (s[0] - 0x30) * pow10((k - 1) as nat) + fraction_value(s.drop_first(), (k - 1) as nat)
    }
}

/// Index of the first `b` in `s`, or `s.len()` when there is none.
pub open spec fn first_index(s: Seq<u8>, b: u8) -> int
    decreases s.len(),
{
    if s.len() == 0 {
        0
    } else if s[0] == b {
        0
    } else {
        1 + first_index(s.drop_first(), b)
    }
}

/// A number field: digits, optionally a dot and more digits, at least one
/// digit in all, and an integer part under [`MAX_INTEGER_PART`]. Its value
/// in units of 10^-9, fraction digits past the ninth dropped.
pub open spec fn spec_decimal(s: Seq<u8>) -> Option<int> {
    let j = first_index(s, 0x2e);
    let int_part = s.take(j);
    let frac_part = if j < s.len() {
        s.skip(j + 1)
    } else {
        Seq::empty()
    };
    if all_digits(int_part) && all_digits(frac_part) && int_part.len() + frac_part.len() > 0
        && digits_value(int_part) < MAX_INTEGER_PART {
        Some(digits_value(int_part) * UNITS + fraction_value(frac_part, 9))
    } else {
        None
    }
}

proof fn lemma_first_index(s: Seq<u8>, b: u8, i: int)
    requires
        0 <= i <= s.len(),
        forall|k: int| 0 <= k < i ==> s[k] != b,
        i == s.len() || s[i] == b,
    ensures
        first_index(s, b) == i,
    decreases i,
{
    if i > 0 {
        lemma_first_index(s.drop_first(), b, i - 1);
    }
}

proof fn lemma_digits_value_step(s: Seq<u8>, i: int)
    requires
        0 <= i < s.len(),
    ensures
        digits_value(s.take(i + 1)) == 10 * digits_value(s.take(i)) + (s[i] - 0x30),
{
    assert(s.take(i + 1).drop_last() =~= s.take(i));
}

proof fn lemma_digits_value_nonneg(s: Seq<u8>)
    requires
        all_digits(s),
    ensures
        digits_value(s) >= 0,
    decreases s.len(),
{
    if s.len() > 0 {
        assert(all_digits(s.drop_last()));
        lemma_digits_value_nonneg(s.drop_last());
    }
}

proof fn lemma_fraction_value_bounds(s: Seq<u8>, k: nat)
    requires
        all_digits(s),
    ensures
        0 <= fraction_value(s, k) < pow10(k),
    decreases k,
{
    if k > 0 && s.len() > 0 {
        assert(all_digits(s.drop_first()));
        lemma_fraction_value_bounds(s.drop_first(), (k - 1) as nat);
        assert(pow10(k) == 10 * pow10((k - 1) as nat));
        assert((s[0] - 0x30) * pow10((k - 1) as nat) <= 9 * pow10((k - 1) as nat)) by (nonlinear_arith)
            requires s[0] - 0x30 <= 9, pow10((k - 1) as nat) >= 0;
    } else if k > 0 {
        lemma_pow10_pos(k);
    } else {
    }
}

proof fn lemma_pow10_pos(k: nat)
    ensures
        pow10(k) >= 1,
    decreases k,
{
    if k > 0 {
        lemma_pow10_pos((k - 1) as nat);
    }
}

proof fn lemma_digits_value_monotone(s: Seq<u8>, k: int, m: int)
    requires
        0 <= k <= m <= s.len(),
        all_digits(s.take(m)),
    ensures
        digits_value(s.take(k)) <= digits_value(s.take(m)),
    decreases m - k,
{
    if k < m {
        lemma_digits_value_step(s, m - 1);
        assert(all_digits(s.take(m - 1))) by {
            assert forall|i: int| 0 <= i < m - 1 implies is_digit(#[trigger] s.take(m - 1)[i]) by {
                assert(s.take(m - 1)[i] == s.take(m)[i]);
            }
        }
        lemma_digits_value_nonneg(s.take(m - 1));
        lemma_digits_value_monotone(s, k, m - 1);
    }
}

fn is_digit_byte(b: u8) -> (r: bool)
    ensures
        r == is_digit(b),
{
    0x30 <= b && b <= 0x39
}

/// Reads a number field (see [`spec_decimal`]) in units of 10^-9.
pub fn parse_decimal(s: &[u8]) -> (r: Option<i64>)
    ensures
        match r {
            Some(v) => spec_decimal(s@) == Some(v as int),
            None => spec_decimal(s@) is None,
        },
{
    let mut j: usize = 0;
    while j < s.len() && s[j] != 0x2e
        invariant
            j <= s@.len(),
            forall|k: int| 0 <= k < j ==> s@[k] != 0x2e,
        decreases s@.len() - j,
    {
        j += 1;
    }
    proof {
        lemma_first_index(s@, 0x2e, j as int);
    }
    let ghost int_part = s@.take(j as int);
    let ghost frac_part = if j < s@.len() { s@.skip(j + 1) } else { Seq::<u8>::empty() };
    let mut int_value: u64 = 0;
    let mut k: usize = 0;
    while k < j
        invariant
            j <= s@.len(),
            k <= j,
            int_part == s@.take(j as int),
            first_index(s@, 0x2e) == j,
            frac_part == (if j < s@.len() { s@.skip(j + 1) } else { Seq::<u8>::empty() }),
            all_digits(s@.take(k as int)),
            int_value == digits_value(s@.take(k as int)),
            int_value < MAX_INTEGER_PART,
        decreases j - k,
    {
        if !is_digit_byte(s[k]) {
            assert(int_part[k as int] == s@[k as int]);
            return None;
        }
        proof {
            lemma_digits_value_step(s@, k as int);
            assert(all_digits(s@.take(k + 1))) by {
                assert forall|i: int| 0 <= i < k + 1 implies is_digit(#[trigger] s@.take(k + 1)[i]) by {
                    if i < k {
                        assert(s@.take(k + 1)[i] == s@.take(k as int)[i]);
                    }
                }
            }
        }
        let next = int_value * 10 + (s[k] - 0x30) as u64;
        if next >= MAX_INTEGER_PART {
            proof {
                if all_digits(int_part) {
                    assert(s@.take(j as int).take(k + 1) =~= s@.take(k + 1));
                    lemma_digits_value_monotone(int_part, k + 1, j as int);
                    assert(int_part.take(j as int) =~= int_part);
                }
            }
            return None;
        }
        int_value = next;
        k += 1;
    }
    assert(s@.take(k as int) =~= int_part);
    let mut frac_value: u64 = 0;
    let mut digits: usize = 0;
    if j < s.len() {
        let ghost fp = s@.skip(j + 1);
        assert(fp == frac_part);
        let mut t: usize = j + 1;
        let mut rem: usize = 9;
        let mut scale: u64 = 100_000_000;
        proof {
            lemma_pow10_pos(9);
            reveal_with_fuel(pow10, 10);
            assert(pow10(9) == 1_000_000_000);
            assert(pow10(8) == 100_000_000);
            assert(fp.skip(0) =~= fp);
        }
        while t < s.len()
            invariant
                j < s@.len(),
                fp == s@.skip(j + 1),
                fp == frac_part,
                int_part == s@.take(j as int),
                first_index(s@, 0x2e) == j,
                j + 1 <= t <= s@.len(),
                digits == t - (j + 1),
                all_digits(fp.take(digits as int)),
                rem <= 9,
                rem == 0 || rem + digits == 9,
                rem > 0 ==> scale == pow10((rem - 1) as nat),
                frac_value + pow10(rem as nat) <= 1_000_000_000,
                frac_value + fraction_value(fp.skip(digits as int), rem as nat) == fraction_value(fp, 9),
            decreases s@.len() - t,
        {
            let b = s[t];
            if !is_digit_byte(b) {
                assert(fp[digits as int] == b);
                return None;
            }
            proof {
                assert(fp.skip(digits as int).drop_first() =~= fp.skip(digits + 1));
                assert(all_digits(fp.take(digits + 1))) by {
                    assert forall|i: int| 0 <= i < digits + 1 implies is_digit(#[trigger] fp.take(digits + 1)[i]) by {
                        if i < digits {
                            assert(fp.take(digits + 1)[i] == fp.take(digits as int)[i]);
                        }
                    }
                }
            }
            if rem > 0 {
                proof {
                    assert(pow10(rem as nat) == 10 * pow10((rem - 1) as nat));
                    assert((b - 0x30) * pow10((rem - 1) as nat) <= 9 * pow10((rem - 1) as nat)) by (nonlinear_arith)
                        requires b - 0x30 <= 9, pow10((rem - 1) as nat) >= 0;
                    lemma_pow10_pos((rem - 1) as nat);
                }
                frac_value = frac_value + (b - 0x30) as u64 * scale;
                rem = rem - 1;
                if rem > 0 {
                    proof {
                        assert(pow10(rem as nat) == 10 * pow10((rem - 1) as nat));
                    }
                    scale = scale / 10;
                }
            }
            t += 1;
            digits += 1;
        }
        assert(fp.skip(digits as int).len() == 0);
        assert(fp.take(digits as int) =~= fp);
    }
    if j == 0 && digits == 0 {
        return None;
    }
    proof {
        if j >= s@.len() {
            assert(all_digits(frac_part));
        }
    }
    Some(int_value as i64 * 1_000_000_000 + frac_value as i64)
}

/// Decimal degrees, in units of 10^-9, of an NMEA `DDDMM.MMMM` value `v`
/// (also in units of 10^-9): whole degrees plus minutes over sixty, negated
/// for the southern and western hemispheres.
pub open spec fn spec_degrees(v: int, negative: bool) -> int {
    let whole = v / (100 * UNITS);
    let minutes = v % (100 * UNITS);
    let d = whole * UNITS + minutes / 60;
    if negative {
        -d
    } else {
        d
    }
}

/// Whether a hemisphere field names the south or the west.
pub open spec fn is_negative_hemisphere(direction: Seq<u8>) -> bool {
    direction.contains(0x53) || direction.contains(0x57)
}

/// The coordinate encoded by a value field and a hemisphere field; zero
/// when the value is not a number.
pub open spec fn spec_coordinate(degree: Seq<u8>, direction: Seq<u8>) -> int {
    match spec_decimal(degree) {
        Some(v) => spec_degrees(v, is_negative_hemisphere(direction)),
        None => 0,
    }
}

/// A number field's value, or zero when it is not a number.
pub open spec fn decimal_or_zero(s: Seq<u8>) -> int {
    match spec_decimal(s) {
        Some(v) => v,
        None => 0,
    }
}

/// Converts an NMEA coordinate (`DDDMM.MMMM` and a hemisphere letter) to
/// decimal degrees in units of 10^-9. A value that is not a number gives 0.
pub fn nema_coords_to_regular_coords(degree: &[u8], direction: &[u8]) -> (r: i64)
    ensures
        r == spec_coordinate(degree@, direction@),
{
    let v = match parse_decimal(degree) {
        Some(v) => v,
        None => return 0,
    };
    proof {
        let ghost j = first_index(degree@, 0x2e);
        lemma_digits_value_nonneg(degree@.take(j));
        let ghost fp = if j < degree@.len() { degree@.skip(j + 1) } else { Seq::<u8>::empty() };
        lemma_fraction_value_bounds(fp, 9);
        reveal_with_fuel(pow10, 10);
    }
    let whole = v / 100_000_000_000;
    let minutes = v % 100_000_000_000;
    let d = whole * 1_000_000_000 + minutes / 60;
    if contains_byte(direction, 0x53) || contains_byte(direction, 0x57) {
        -d
    } else {
        d
    }
}

/// The `n`-th comma-separated field of `s` (empty past the last field).
pub open spec fn nth_field(s: Seq<u8>, n: nat) -> Seq<u8>
    decreases n,
{
    let j = first_index(s, 0x2c);
    if n == 0 {
        s.take(j)
    } else if j >= s.len() {
        Seq::empty()
    } else {
        nth_field(s.skip(j + 1), (n - 1) as nat)
    }
}

fn find_byte(s: &[u8], from: usize, b: u8) -> (r: usize)
    requires
        from <= s@.len(),
    ensures
        r == from + first_index(s@.skip(from as int), b),
        from <= r <= s@.len(),
        r < s@.len() ==> s@[r as int] == b,
{
    let mut i: usize = from;
    while i < s.len() && s[i] != b
        invariant
            from <= i <= s@.len(),
            forall|k: int| from <= k < i ==> s@[k] != b,
        decreases s@.len() - i,
    {
        i += 1;
    }
    proof {
        let t = s@.skip(from as int);
        assert forall|k: int| 0 <= k < i - from implies t[k] != b by {
            assert(t[k] == s@[from + k]);
        }
        lemma_first_index(t, b, i - from);
    }
    i
}

/// The `n`-th comma-separated field of `line`.
pub fn nth_field_of(line: &[u8], n: usize) -> (r: &[u8])
    ensures
        r@ == nth_field(line@, n as nat),
{
    let mut start: usize = 0;
    let mut count: usize = 0;
    assert(line@.skip(0) =~= line@);
    while count < n
        invariant
            start <= line@.len(),
            count <= n,
            nth_field(line@.skip(start as int), (n - count) as nat) == nth_field(line@, n as nat),
        decreases n - count,
    {
        let j = find_byte(line, start, 0x2c);
        if j >= line.len() {
            assert(line@.subrange(line@.len() as int, line@.len() as int) =~= Seq::<u8>::empty());
            return &line[line.len()..line.len()];
        }
        assert(line@.skip(start as int).skip(j - start + 1) =~= line@.skip(j + 1));
        start = j + 1;
        count += 1;
    }
    let j = find_byte(line, start, 0x2c);
    assert(line@.skip(start as int).take(j - start) =~= line@.subrange(start as int, j as int));
    &line[start..j]
}

/// The two NMEA sentences that carry a fix.
#[derive(Debug, Clone, Copy, PartialEq, Eq, Structural)]
pub enum SentenceKind {
    /// `$GNGGA`: time, position and fix quality.
    PositionFix,
    /// `$GNRMC`: recommended minimum data, time, date and position.
    RecommendedMinimum,
}

pub open spec fn gga_tag() -> Seq<u8> {
    seq![0x24u8, 0x47, 0x4e, 0x47, 0x47, 0x41]
}

pub open spec fn rmc_tag() -> Seq<u8> {
    seq![0x24u8, 0x47, 0x4e, 0x52, 0x4d, 0x43]
}

/// The fix read from fields `t` (time), `a`, `a + 1` (latitude and its
/// hemisphere) and `a + 2`, `a + 3` (longitude and its hemisphere).
pub open spec fn fix_from_fields(line: Seq<u8>, a: nat) -> GpsDataDecoded {
    GpsDataDecoded {
        time: decimal_or_zero(nth_field(line, 1)) as i64,
        lat: spec_coordinate(nth_field(line, a), nth_field(line, a + 1)) as i64,
        lon: spec_coordinate(nth_field(line, a + 2), nth_field(line, a + 3)) as i64,
    }
}

/// What an NMEA line reports: its kind and fix for `$GNGGA` and `$GNRMC`,
/// nothing for any other sentence. Missing fields read as zero.
pub open spec fn spec_sentence(line: Seq<u8>) -> Option<(SentenceKind, GpsDataDecoded)> {
    let head = nth_field(line, 0);
    if head == gga_tag() {
        Some((SentenceKind::PositionFix, fix_from_fields(line, 2)))
    } else if head == rmc_tag() {
        Some((SentenceKind::RecommendedMinimum, fix_from_fields(line, 3)))
    } else {
        None
    }
}

fn bytes_equal(a: &[u8], b: &[u8]) -> (r: bool)
    ensures
        r == (a@ == b@),
{
    if a.len() != b.len() {
        return false;
    }
    let mut i: usize = 0;
    while i < a.len()
        invariant
            a@.len() == b@.len(),
            i <= a@.len(),
            forall|k: int| 0 <= k < i ==> a@[k] == b@[k],
        decreases a@.len() - i,
    {
        if a[i] != b[i] {
            return false;
        }
        i += 1;
    }
    assert(a@ =~= b@);
    true
}

fn decimal_field(line: &[u8], n: usize) -> (r: i64)
    ensures
        r == decimal_or_zero(nth_field(line@, n as nat)),
{
    match parse_decimal(nth_field_of(line, n)) {
        Some(v) => v,
        None => 0,
    }
}

fn fix_at(line: &[u8], a: usize) -> (r: GpsDataDecoded)
    requires
        a <= 3,
    ensures
        r == fix_from_fields(line@, a as nat),
{
    let time = decimal_field(line, 1);
    let lat = nema_coords_to_regular_coords(nth_field_of(line, a), nth_field_of(line, a + 1));
    let lon = nema_coords_to_regular_coords(nth_field_of(line, a + 2), nth_field_of(line, a + 3));
    GpsDataDecoded { time, lat, lon }
}

/// Decodes a `$GNGGA` or `$GNRMC` sentence; any other line gives `None`.
/// A field that is missing or not a number reads as zero.
pub fn parse_nema(nema_string: &[u8]) -> (r: Option<(SentenceKind, GpsDataDecoded)>)
    ensures
        r == spec_sentence(nema_string@),
{
    let head = nth_field_of(nema_string, 0);
    let gga: [u8; 6] = [0x24, 0x47, 0x4e, 0x47, 0x47, 0x41];
    let rmc: [u8; 6] = [0x24, 0x47, 0x4e, 0x52, 0x4d, 0x43];
    assert(gga@ =~= gga_tag());
    assert(rmc@ =~= rmc_tag());
    if bytes_equal(head, &gga) {
        Some((SentenceKind::PositionFix, fix_at(nema_string, 2)))
    } else if bytes_equal(head, &rmc) {
        Some((SentenceKind::RecommendedMinimum, fix_at(nema_string, 3)))
    } else {
        None
    }
}

/// A southern (or western) hemisphere letter gives exactly the negation of
/// what a northern (or eastern) one gives, for every value field.
pub proof fn lemma_hemisphere_negates(degree: Seq<u8>)
    ensures
        spec_coordinate(degree, seq![0x53u8]) == -spec_coordinate(degree, seq![0x4eu8]),
        spec_coordinate(degree, seq![0x57u8]) == -spec_coordinate(degree, seq![0x45u8]),
{
    assert(seq![0x53u8].contains(0x53u8)) by {
        assert(seq![0x53u8][0] == 0x53u8);
    }
    assert(seq![0x57u8].contains(0x57u8)) by {
        assert(seq![0x57u8][0] == 0x57u8);
    }
    assert(!seq![0x4eu8].contains(0x53u8) && !seq![0x4eu8].contains(0x57u8));
    assert(!seq![0x45u8].contains(0x53u8) && !seq![0x45u8].contains(0x57u8));
}

/// Offers the fix of an `$GNRMC` line to the cache; other lines, `$GNGGA`
/// included (it repeats the same fix), leave it as it is. Returns whether
/// the cached fix changed.
pub fn handle_line(cache: &mut GpsCache, line: &[u8]) -> (r: bool)
    ensures
        match spec_sentence(line@) {
            Some((SentenceKind::RecommendedMinimum, fix)) => r == replaces(old(cache)@, fix)
                && final(cache)@ == spec_publish(old(cache)@, fix),
            _ => !r && final(cache)@ == old(cache)@,
        },
{
    match parse_nema(line) {
        Some((SentenceKind::RecommendedMinimum, fix)) => cache.publish(fix),
        _ => false,
    }
}

/// Where the GPS reader stands with its serial device.
#[derive(Debug, Clone, Copy, PartialEq, Eq, Structural)]
pub enum ReaderState {
    Disconnected,
    Connected,
    Streaming,
}

/// What happened on the serial device.
#[derive(Debug, Clone, Copy, PartialEq, Eq, Structural)]
pub enum ReaderEvent {
    /// The device was opened.
    Opened,
    /// A line was read.
    Line,
    /// A read timed out: the device is idle, not faulty.
    TimedOut,
    /// Opening or reading failed.
    Failed,
}

pub open spec fn spec_reader_next(s: ReaderState, e: ReaderEvent) -> ReaderState {
    match (s, e) {
        (ReaderState::Disconnected, ReaderEvent::Opened) => ReaderState::Connected,
        (ReaderState::Disconnected, _) => ReaderState::Disconnected,
        (_, ReaderEvent::Failed) => ReaderState::Disconnected,
        (_, ReaderEvent::Line) => ReaderState::Streaming,
        (s, _) => s,
    }
}

/// The reader's next state: a timeout changes nothing, any other failure
/// disconnects, a line means the device is streaming.
pub fn reader_next(s: ReaderState, e: ReaderEvent) -> (r: ReaderState)
    ensures
        r == spec_reader_next(s, e),
{
    match (s, e) {
        (ReaderState::Disconnected, ReaderEvent::Opened) => ReaderState::Connected,
        (ReaderState::Disconnected, _) => ReaderState::Disconnected,
        (_, ReaderEvent::Failed) => ReaderState::Disconnected,
        (_, ReaderEvent::Line) => ReaderState::Streaming,
        (s, _) => s,
    }
}

} // verus!
