use vstd::prelude::*;
use crate::util::RBR2G29Error;

verus! {

/// Seven forward-gear upshift/downshift RPM pairs plus one RPM limit
/// (redline), in whole RPM. A field left at its default of 0 means "shift
/// point unknown", not "shift at 0 RPM"; callers must treat it so.
#[derive(Clone, Copy, Debug, PartialEq, Eq, Structural)]
pub struct GearMap {
    pub gear0_upshift: u32,
    pub gear0_downshift: u32,
    pub gear1_upshift: u32,
    pub gear1_downshift: u32,
    pub gear2_upshift: u32,
    pub gear2_downshift: u32,
    pub gear3_upshift: u32,
    pub gear3_downshift: u32,
    pub gear4_upshift: u32,
    pub gear4_downshift: u32,
    pub gear5_upshift: u32,
    pub gear5_downshift: u32,
    pub gear6_upshift: u32,
    pub gear6_downshift: u32,
    pub rpm_limit: u32,
}

/// The map with every shift point and the limit unknown.
pub open spec fn default_gear_map() -> GearMap {
    GearMap {
        gear0_upshift: 0,
        gear0_downshift: 0,
        gear1_upshift: 0,
        gear1_downshift: 0,
        gear2_upshift: 0,
        gear2_downshift: 0,
        gear3_upshift: 0,
        gear3_downshift: 0,
        gear4_upshift: 0,
        gear4_downshift: 0,
        gear5_upshift: 0,
        gear5_downshift: 0,
        gear6_upshift: 0,
        gear6_downshift: 0,
        rpm_limit: 0,
    }
}

impl Default for GearMap {
    fn default() -> (m: GearMap)
        ensures
            m == default_gear_map(),
    {
        GearMap {
            gear0_upshift: 0,
            gear0_downshift: 0,
            gear1_upshift: 0,
            gear1_downshift: 0,
            gear2_upshift: 0,
            gear2_downshift: 0,
            gear3_upshift: 0,
            gear3_downshift: 0,
            gear4_upshift: 0,
            gear4_downshift: 0,
            gear5_upshift: 0,
            gear5_downshift: 0,
            gear6_upshift: 0,
            gear6_downshift: 0,
            rpm_limit: 0,
        }
    }
}

/// The upshift threshold the map holds for a telemetry gear index, 0 for a
/// gear outside the seven forward slots.
pub open spec fn rpm_for_gear_spec(m: GearMap, gear: int) -> u32 {
    if gear == 0 {
        m.gear0_upshift
    } else if gear == 1 {
        m.gear1_upshift
    } else if gear == 2 {
        m.gear2_upshift
    } else if gear == 3 {
        m.gear3_upshift
    } else if gear == 4 {
        m.gear4_upshift
    } else if gear == 5 {
        m.gear5_upshift
    } else if gear == 6 {
        m.gear6_upshift
    } else {
        0
    }
}

impl GearMap {
    pub fn get_rpm_for_gear(&self, gear: i32) -> (r: u32)
        ensures
            r == rpm_for_gear_spec(*self, gear as int),
    {
        match gear {
            0 => self.gear0_upshift,
            1 => self.gear1_upshift,
            2 => self.gear2_upshift,
            3 => self.gear3_upshift,
            4 => self.gear4_upshift,
            5 => self.gear5_upshift,
            6 => self.gear6_upshift,
            _ => 0,
        }
    }
}

/// One recognized configuration key: an upshift or downshift threshold for a
/// forward gear (0 through 6), or the RPM limit.
#[derive(Clone, Copy, Debug, PartialEq, Eq, Structural)]
pub enum GearKey {
    Upshift(u8),
    Downshift(u8),
    Limit,
}

/// The map after one recognized key is assigned a value. A gear number
/// outside 0 through 6 changes nothing; `key_of` never produces one.
pub open spec fn set_key(m: GearMap, k: GearKey, v: u32) -> GearMap {
    match k {
        GearKey::Upshift(g) => {
            if g == 0 {
                GearMap { gear0_upshift: v, ..m }
            } else if g == 1 {
                GearMap { gear1_upshift: v, ..m }
            } else if g == 2 {
                GearMap { gear2_upshift: v, ..m }
            } else if g == 3 {
                GearMap { gear3_upshift: v, ..m }
            } else if g == 4 {
                GearMap { gear4_upshift: v, ..m }
            } else if g == 5 {
                GearMap { gear5_upshift: v, ..m }
            } else if g == 6 {
                GearMap { gear6_upshift: v, ..m }
            } else {
                m
            }
        },
        GearKey::Downshift(g) => {
            if g == 0 {
                GearMap { gear0_downshift: v, ..m }
            } else if g == 1 {
                GearMap { gear1_downshift: v, ..m }
            } else if g == 2 {
                GearMap { gear2_downshift: v, ..m }
            } else if g == 3 {
                GearMap { gear3_downshift: v, ..m }
            } else if g == 4 {
                GearMap { gear4_downshift: v, ..m }
            } else if g == 5 {
                GearMap { gear5_downshift: v, ..m }
            } else if g == 6 {
                GearMap { gear6_downshift: v, ..m }
            } else {
                m
            }
        },
        GearKey::Limit => GearMap { rpm_limit: v, ..m },
    }
}

fn apply_key(m: GearMap, k: GearKey, v: u32) -> (r: GearMap)
    ensures
        r == set_key(m, k, v),
{
    match k {
        GearKey::Upshift(g) => {
            if g == 0 {
                GearMap { gear0_upshift: v, ..m }
            } else if g == 1 {
                GearMap { gear1_upshift: v, ..m }
            } else if g == 2 {
                GearMap { gear2_upshift: v, ..m }
            } else if g == 3 {
                GearMap { gear3_upshift: v, ..m }
            } else if g == 4 {
                GearMap { gear4_upshift: v, ..m }
            } else if g == 5 {
                GearMap { gear5_upshift: v, ..m }
            } else if g == 6 {
                GearMap { gear6_upshift: v, ..m }
            } else {
                m
            }
        },
        GearKey::Downshift(g) => {
            if g == 0 {
                GearMap { gear0_downshift: v, ..m }
            } else if g == 1 {
                GearMap { gear1_downshift: v, ..m }
            } else if g == 2 {
                GearMap { gear2_downshift: v, ..m }
            } else if g == 3 {
                GearMap { gear3_downshift: v, ..m }
            } else if g == 4 {
                GearMap { gear4_downshift: v, ..m }
            } else if g == 5 {
                GearMap { gear5_downshift: v, ..m }
            } else if g == 6 {
                GearMap { gear6_downshift: v, ..m }
            } else {
                m
            }
        },
        GearKey::Limit => GearMap { rpm_limit: v, ..m },
    }
}

/// ASCII whitespace: the separators the tokenizer splits on.
pub open spec fn is_ascii_ws(b: u8) -> bool {
    b == 32 || b == 9 || b == 10 || b == 11 || b == 12 || b == 13
}

/// ASCII case folding of one byte; bytes outside 'A'..'Z' pass unchanged.
pub open spec fn ascii_lower(b: u8) -> u8 {
    if 'A' as u8 <= b && b <= 'Z' as u8 {
        (b + 32) as u8
    } else {
        b
    }
}

/// ASCII case folding of a whole line.
pub open spec fn lower_seq(s: Seq<u8>) -> Seq<u8> {
    s.map_values(|b: u8| ascii_lower(b))
}

fn to_lower_vec(line: &[u8]) -> (low: Vec<u8>)
    ensures
        low@ == lower_seq(line@),
{
    let mut low: Vec<u8> = Vec::new();
    let mut i: usize = 0;
    while i < line.len()
        invariant
            i <= line@.len(),
            low@ =~= lower_seq(line@.take(i as int)),
        decreases line@.len() - i,
    {
        let b = line[i];
        if 'A' as u8 <= b && b <= 'Z' as u8 {
            low.push(b + 32);
        } else {
            low.push(b);
        }
        i = i + 1;
        proof {
            assert(line@.take(i as int) =~= line@.take(i as int - 1).push(line@[i as int - 1]));
            assert(low@ =~= lower_seq(line@.take(i as int)));
        }
    }
    proof {
        assert(line@.take(line@.len() as int) =~= line@);
    }
    low
}

/// The whitespace-split tokens of `s`, with `cur` the token under
/// construction to the left of `s`.
pub open spec fn tokenize_go(s: Seq<u8>, cur: Seq<u8>) -> Seq<Seq<u8>>
    decreases s.len(),
{
    if s.len() == 0 {
        if cur.len() == 0 {
            Seq::empty()
        } else {
            seq![cur]
        }
    } else if is_ascii_ws(s[0]) {
        if cur.len() == 0 {
            tokenize_go(s.drop_first(), Seq::empty())
        } else {
            seq![cur] + tokenize_go(s.drop_first(), Seq::empty())
        }
    } else {
        tokenize_go(s.drop_first(), cur.push(s[0]))
    }
}

/// The maximal runs of non-whitespace bytes in `s`, in order.
pub open spec fn tokens_of(s: Seq<u8>) -> Seq<Seq<u8>> {
    tokenize_go(s, Seq::empty())
}

fn is_ws_byte(b: u8) -> (r: bool)
    ensures
        r == is_ascii_ws(b),
{
    b == 32 || b == 9 || b == 10 || b == 11 || b == 12 || b == 13
}

fn tokenize(line: &[u8]) -> (toks: Vec<Vec<u8>>)
    ensures
        toks@.map_values(|t: Vec<u8>| t@) == tokens_of(line@),
{
    let n = line.len();
    let mut toks: Vec<Vec<u8>> = Vec::new();
    let mut cur: Vec<u8> = Vec::new();
    let mut i: usize = 0;
    proof {
        assert(line@.skip(0) =~= line@);
        assert(toks@.map_values(|t: Vec<u8>| t@) =~= Seq::<Seq<u8>>::empty());
        assert(Seq::<Seq<u8>>::empty() + tokenize_go(line@, cur@) =~= tokenize_go(line@, cur@));
    }
    while i < n
        invariant
            n == line@.len(),
            i <= n,
            tokens_of(line@) == toks@.map_values(|t: Vec<u8>| t@) + tokenize_go(
                line@.skip(i as int),
                cur@,
            ),
        decreases n - i,
    {
        let ghost prev = line@.skip(i as int);
        let ghost old_cur = cur@;
        let ghost old_toks = toks@;
        let b = line[i];
        proof {
            assert(prev[0] == line@[i as int]);
            assert(prev.drop_first() =~= line@.skip(i as int + 1));
        }
        if is_ws_byte(b) {
            if cur.len() > 0 {
                toks.push(cur);
                cur = Vec::new();
                proof {
                    assert(tokenize_go(prev, old_cur) == seq![old_cur] + tokenize_go(
                        line@.skip(i as int + 1),
                        cur@,
                    ));
                    assert(toks@.map_values(|t: Vec<u8>| t@) =~= old_toks.map_values(
                        |t: Vec<u8>| t@,
                    ).push(old_cur));
                    assert(toks@.map_values(|t: Vec<u8>| t@) + tokenize_go(
                        line@.skip(i as int + 1),
                        cur@,
                    ) =~= old_toks.map_values(|t: Vec<u8>| t@) + tokenize_go(prev, old_cur));
                }
            } else {
                proof {
                    assert(old_cur =~= Seq::<u8>::empty());
                    assert(tokenize_go(prev, old_cur) == tokenize_go(
                        line@.skip(i as int + 1),
                        old_cur,
                    ));
                }
            }
        } else {
            cur.push(b);
            proof {
                assert(tokenize_go(prev, old_cur) == tokenize_go(line@.skip(i as int + 1), cur@));
            }
        }
        i = i + 1;
    }
    proof {
        assert(line@.skip(n as int) =~= Seq::<u8>::empty());
    }
    let ghost old_toks = toks@;
    let ghost old_cur = cur@;
    if cur.len() > 0 {
        toks.push(cur);
        proof {
            assert(tokenize_go(Seq::<u8>::empty(), old_cur) == seq![old_cur]);
            assert(toks@.map_values(|t: Vec<u8>| t@) =~= old_toks.map_values(|t: Vec<u8>| t@).push(
                old_cur,
            ));
            assert(toks@.map_values(|t: Vec<u8>| t@) =~= old_toks.map_values(|t: Vec<u8>| t@)
                + seq![old_cur]);
        }
    } else {
        proof {
            assert(tokenize_go(Seq::<u8>::empty(), old_cur) =~= Seq::<Seq<u8>>::empty());
            assert(toks@.map_values(|t: Vec<u8>| t@) + Seq::<Seq<u8>>::empty() =~= toks@.map_values(
                |t: Vec<u8>| t@,
            ));
        }
    }
    toks
}

/// `needle` occurs somewhere in `hay` as a contiguous run.
pub open spec fn contains_seq(hay: Seq<u8>, needle: Seq<u8>) -> bool {
    exists|i: int|
        0 <= i && i + needle.len() <= hay.len() && #[trigger] hay.subrange(i, i + needle.len())
            == needle
}

fn match_at(hay: &[u8], needle: &[u8], at: usize) -> (r: bool)
    requires
        at + needle@.len() <= hay@.len(),
    ensures
        r == (hay@.subrange(at as int, at as int + needle@.len()) == needle@),
{
    let n = needle.len();
    let hn = hay.len();
    let mut j: usize = 0;
    while j < n
        invariant
            n == needle@.len(),
            hn == hay@.len(),
            at + n <= hn,
            j <= n,
            forall|k: int| 0 <= k < j ==> hay@[at + k] == needle@[k],
        decreases n - j,
    {
        if hay[at + j] != needle[j] {
            proof {
                assert(hay@.subrange(at as int, at as int + needle@.len())[j as int] != needle@[
                j as int]);
            }
            return false;
        }
        j = j + 1;
    }
    proof {
        assert(hay@.subrange(at as int, at as int + needle@.len()) =~= needle@);
    }
    true
}

fn contains_bytes(hay: &[u8], needle: &[u8]) -> (r: bool)
    ensures
        r == contains_seq(hay@, needle@),
{
    if needle.len() == 0 {
        proof {
            assert(hay@.subrange(0, 0 + needle@.len() as int) =~= needle@);
        }
        return true;
    }
    if needle.len() > hay.len() {
        return false;
    }
    let hn = hay.len();
    let end = hn - needle.len();
    let mut i: usize = 0;
    while i <= end
        invariant
            needle@.len() >= 1,
            hn == hay@.len(),
            end == hay@.len() - needle@.len(),
            i <= end + 1,
            forall|k: int|
                0 <= k < i ==> #[trigger] hay@.subrange(k, k + needle@.len()) != needle@,
        decreases end - i + 1,
    {
        if match_at(hay, needle, i) {
            return true;
        }
        i = i + 1;
    }
    false
}

/// The bytes of "gear", the stem of every per-gear key and the substring
/// that makes a line a candidate.
pub open spec fn gear_stem() -> Seq<u8> {
    seq!['g' as u8, 'e' as u8, 'a' as u8, 'r' as u8]
}

/// The bytes of "upshift".
pub open spec fn upshift_suffix() -> Seq<u8> {
    seq!['u' as u8, 'p' as u8, 's' as u8, 'h' as u8, 'i' as u8, 'f' as u8, 't' as u8]
}

/// The bytes of "downshift".
pub open spec fn downshift_suffix() -> Seq<u8> {
    seq![
        'd' as u8,
        'o' as u8,
        'w' as u8,
        'n' as u8,
        's' as u8,
        'h' as u8,
        'i' as u8,
        'f' as u8,
        't' as u8,
    ]
}

/// The bytes of "rpmlimit".
pub open spec fn rpmlimit_key() -> Seq<u8> {
    seq!['r' as u8, 'p' as u8, 'm' as u8, 'l' as u8, 'i' as u8, 'm' as u8, 'i' as u8, 't' as u8]
}

/// The recognized key a (case-folded) token spells, if any: "rpmlimit", or
/// "gear" then one digit 0 through 6 then "upshift" or "downshift".
pub open spec fn key_of(tok: Seq<u8>) -> Option<GearKey> {
    if tok == rpmlimit_key() {
        Some(GearKey::Limit)
    } else if tok.len() == 12 && tok.subrange(0, 4) == gear_stem() && '0' as u8 <= tok[4] && tok[4]
        <= '6' as u8 && tok.subrange(5, 12) == upshift_suffix() {
        Some(GearKey::Upshift((tok[4] - '0' as u8) as u8))
    } else if tok.len() == 14 && tok.subrange(0, 4) == gear_stem() && '0' as u8 <= tok[4] && tok[4]
        <= '6' as u8 && tok.subrange(5, 14) == downshift_suffix() {
        Some(GearKey::Downshift((tok[4] - '0' as u8) as u8))
    } else {
        None
    }
}

fn classify_key(tok: &[u8]) -> (k: Option<GearKey>)
    ensures
        k == key_of(tok@),
{
    if tok.len() == 8 {
        if tok[0] == 'r' as u8 && tok[1] == 'p' as u8 && tok[2] == 'm' as u8 && tok[3] == 'l' as u8
            && tok[4] == 'i' as u8 && tok[5] == 'm' as u8 && tok[6] == 'i' as u8 && tok[7]
            == 't' as u8 {
            proof {
                assert(tok@ =~= rpmlimit_key());
            }
            return Some(GearKey::Limit);
        }
        proof {
            assert(tok@ != rpmlimit_key());
        }
        return None;
    }
    if tok.len() == 12 || tok.len() == 14 {
        proof {
            assert(tok@ != rpmlimit_key());
        }
        if !(tok[0] == 'g' as u8 && tok[1] == 'e' as u8 && tok[2] == 'a' as u8 && tok[3]
            == 'r' as u8) {
            proof {
                assert(tok@.subrange(0, 4) != gear_stem());
            }
            return None;
        }
        proof {
            assert(tok@.subrange(0, 4) =~= gear_stem());
        }
        if !('0' as u8 <= tok[4] && tok[4] <= '6' as u8) {
            return None;
        }
        let g = tok[4] - '0' as u8;
        if tok.len() == 12 {
            if tok[5] == 'u' as u8 && tok[6] == 'p' as u8 && tok[7] == 's' as u8 && tok[8]
                == 'h' as u8 && tok[9] == 'i' as u8 && tok[10] == 'f' as u8 && tok[11]
                == 't' as u8 {
                proof {
                    assert(tok@.subrange(5, 12) =~= upshift_suffix());
                }
                return Some(GearKey::Upshift(g));
            }
            proof {
                assert(tok@.subrange(5, 12) != upshift_suffix());
            }
            return None;
        }
        if tok[5] == 'd' as u8 && tok[6] == 'o' as u8 && tok[7] == 'w' as u8 && tok[8] == 'n' as u8
            && tok[9] == 's' as u8 && tok[10] == 'h' as u8 && tok[11] == 'i' as u8 && tok[12]
            == 'f' as u8 && tok[13] == 't' as u8 {
            proof {
                assert(tok@.subrange(5, 14) =~= downshift_suffix());
            }
            return Some(GearKey::Downshift(g));
        }
        proof {
            assert(tok@.subrange(5, 14) != downshift_suffix());
        }
        return None;
    }
    proof {
        assert(tok@ != rpmlimit_key());
    }
    None
}

/// `b` is an ASCII decimal digit.
pub open spec fn is_digit(b: u8) -> bool {
    '0' as u8 <= b && b <= '9' as u8
}

/// Every byte of `s` is an ASCII decimal digit.
pub open spec fn all_digits(s: Seq<u8>) -> bool {
    forall|i: int| 0 <= i < s.len() ==> is_digit(#[trigger] s[i])
}

/// The value of a digit string read as decimal, most significant digit
/// first.
pub open spec fn digits_val(s: Seq<u8>) -> int
    decreases s.len(),
{
    if s.len() == 0 {
        0
    } else {
        digits_val(s.drop_last()) * 10 + (s.last() - '0' as u8)
    }
}

/// The index of the first '.' in `s`, or `s.len()` if there is none.
pub open spec fn dot_pos(s: Seq<u8>) -> int
    decreases s.len(),
{
    if s.len() == 0 {
        0
    } else if s[0] == '.' as u8 {
        0
    } else {
        1 + dot_pos(s.drop_first())
    }
}

proof fn lemma_dot_pos(s: Seq<u8>)
    ensures
        0 <= dot_pos(s) <= s.len(),
        dot_pos(s) < s.len() ==> s[dot_pos(s)] == '.' as u8,
        forall|j: int| 0 <= j < dot_pos(s) ==> s[j] != '.' as u8,
    decreases s.len(),
{
    if s.len() > 0 && s[0] != '.' as u8 {
        lemma_dot_pos(s.drop_first());
        assert forall|j: int| 0 <= j < dot_pos(s) implies s[j] != '.' as u8 by {
            if j > 0 {
                assert(s.drop_first()[j - 1] != '.' as u8);
            }
        }
    }
}

/// The whole RPM a value token denotes: one or more digits, optionally
/// followed by '.' and a (possibly empty) run of digits, rounded half-up to
/// a whole number. `None` when the token does not fit that grammar or the
/// value exceeds `u32::MAX`; the loader treats `None` as fatal.
pub open spec fn parse_rpm_spec(s: Seq<u8>) -> Option<u32> {
    let d = dot_pos(s);
    if d == s.len() {
        if s.len() > 0 && all_digits(s) && digits_val(s) <= u32::MAX {
            Some(digits_val(s) as u32)
        } else {
            None
        }
    } else {
        let ip = s.subrange(0, d);
        let fp = s.subrange(d + 1, s.len() as int);
        if d > 0 && all_digits(ip) && all_digits(fp) {
            let v = digits_val(ip) + if fp.len() > 0 && fp[0] >= '5' as u8 {
                1int
            } else {
                0int
            };
            if v <= u32::MAX {
                Some(v as u32)
            } else {
                None
            }
        } else {
            None
        }
    }
}

fn all_digits_range(s: &[u8], from: usize, to: usize) -> (r: bool)
    requires
        from <= to <= s@.len(),
    ensures
        r == all_digits(s@.subrange(from as int, to as int)),
{
    let mut i: usize = from;
    while i < to
        invariant
            from <= i <= to <= s@.len(),
            forall|j: int| from <= j < i ==> is_digit(#[trigger] s@[j]),
        decreases to - i,
    {
        let b = s[i];
        if !('0' as u8 <= b && b <= '9' as u8) {
            proof {
                assert(!is_digit(s@.subrange(from as int, to as int)[i - from]));
            }
            return false;
        }
        i = i + 1;
    }
    proof {
        assert forall|k: int| 0 <= k < to - from implies is_digit(
            #[trigger] s@.subrange(from as int, to as int)[k],
        ) by {
            assert(is_digit(s@[from + k]));
        }
    }
    true
}

fn digits_value(s: &[u8], from: usize, to: usize) -> (r: Option<u32>)
    requires
        from <= to <= s@.len(),
        all_digits(s@.subrange(from as int, to as int)),
    ensures
        match r {
            Some(v) => v == digits_val(s@.subrange(from as int, to as int)),
            None => digits_val(s@.subrange(from as int, to as int)) > u32::MAX,
        },
{
    let mut acc: u64 = 0;
    let mut over: bool = false;
    let mut i: usize = from;
    proof {
        assert(s@.subrange(from as int, from as int) =~= Seq::<u8>::empty());
    }
    while i < to
        invariant
            from <= i <= to <= s@.len(),
            all_digits(s@.subrange(from as int, to as int)),
            acc <= u32::MAX,
            !over ==> acc == digits_val(s@.subrange(from as int, i as int)),
            over ==> digits_val(s@.subrange(from as int, i as int)) > u32::MAX,
        decreases to - i,
    {
        let ghost pre = s@.subrange(from as int, i as int);
        let ghost pre1 = s@.subrange(from as int, i as int + 1);
        proof {
            assert(pre1.drop_last() =~= pre);
            assert(pre1.last() == s@[i as int]);
            assert(is_digit(s@.subrange(from as int, to as int)[i - from]));
            assert(digits_val(pre1) == digits_val(pre) * 10 + (s@[i as int] - '0' as u8));
        }
        let b = s[i];
        if !over {
            let next: u64 = acc * 10 + ((b - '0' as u8) as u64);
            if next > u32::MAX as u64 {
                over = true;
            } else {
                acc = next as u32 as u64;
            }
        }
        i = i + 1;
    }
    if over {
        None
    } else {
        Some(acc as u32)
    }
}

fn parse_rpm(tok: &[u8]) -> (r: Option<u32>)
    ensures
        r == parse_rpm_spec(tok@),
{
    let n = tok.len();
    let mut i: usize = 0;
    while i < n && tok[i] != '.' as u8
        invariant
            n == tok@.len(),
            i <= n,
            forall|j: int| 0 <= j < i ==> tok@[j] != '.' as u8,
        decreases n - i,
    {
        i = i + 1;
    }
    let d = i;
    proof {
        lemma_dot_pos(tok@);
        if d < n {
            assert(tok@[d as int] == '.' as u8);
            assert(dot_pos(tok@) >= d);
        }
        assert(d == dot_pos(tok@));
    }
    if d == n {
        if n == 0 {
            return None;
        }
        proof {
            assert(tok@.subrange(0, n as int) =~= tok@);
        }
        if !all_digits_range(tok, 0, n) {
            return None;
        }
        digits_value(tok, 0, n)
    } else {
        if d == 0 {
            return None;
        }
        if !all_digits_range(tok, 0, d) {
            return None;
        }
        if !all_digits_range(tok, d + 1, n) {
            return None;
        }
        let ghost fp = tok@.subrange(d as int + 1, n as int);
        let round_up = d + 1 < n && tok[d + 1] >= '5' as u8;
        proof {
            assert((fp.len() > 0 && fp[0] >= '5' as u8) == round_up);
        }
        match digits_value(tok, 0, d) {
            None => None,
            Some(v) => {
                if round_up {
                    if v == u32::MAX {
                        None
                    } else {
                        Some(v + 1)
                    }
                } else {
                    Some(v)
                }
            },
        }
    }
}

/// The lines of a file split on '\n', with `cur` the line under
/// construction. A final line with no trailing newline is kept; a trailing
/// newline yields one empty final line, which the loader skips.
pub open spec fn lines_go(s: Seq<u8>, cur: Seq<u8>) -> Seq<Seq<u8>>
    decreases s.len(),
{
    if s.len() == 0 {
        seq![cur]
    } else if s[0] == '\n' as u8 {
        seq![cur] + lines_go(s.drop_first(), Seq::empty())
    } else {
        lines_go(s.drop_first(), cur.push(s[0]))
    }
}

/// The lines of a configuration file.
pub open spec fn lines_of(s: Seq<u8>) -> Seq<Seq<u8>> {
    lines_go(s, Seq::empty())
}

fn split_lines(content: &[u8]) -> (lines: Vec<Vec<u8>>)
    ensures
        lines@.map_values(|l: Vec<u8>| l@) == lines_of(content@),
{
    let n = content.len();
    let mut lines: Vec<Vec<u8>> = Vec::new();
    let mut cur: Vec<u8> = Vec::new();
    let mut i: usize = 0;
    proof {
        assert(content@.skip(0) =~= content@);
        assert(lines@.map_values(|l: Vec<u8>| l@) =~= Seq::<Seq<u8>>::empty());
        assert(Seq::<Seq<u8>>::empty() + lines_go(content@, cur@) =~= lines_go(content@, cur@));
    }
    while i < n
        invariant
            n == content@.len(),
            i <= n,
            lines_of(content@) == lines@.map_values(|l: Vec<u8>| l@) + lines_go(
                content@.skip(i as int),
                cur@,
            ),
        decreases n - i,
    {
        let ghost prev = content@.skip(i as int);
        let ghost old_cur = cur@;
        let ghost old_lines = lines@;
        let b = content[i];
        proof {
            assert(prev[0] == content@[i as int]);
            assert(prev.drop_first() =~= content@.skip(i as int + 1));
        }
        if b == '\n' as u8 {
            lines.push(cur);
            cur = Vec::new();
            proof {
                assert(lines_go(prev, old_cur) == seq![old_cur] + lines_go(
                    content@.skip(i as int + 1),
                    cur@,
                ));
                assert(lines@.map_values(|l: Vec<u8>| l@) =~= old_lines.map_values(
                    |l: Vec<u8>| l@,
                ).push(old_cur));
                assert(lines@.map_values(|l: Vec<u8>| l@) + lines_go(
                    content@.skip(i as int + 1),
                    cur@,
                ) =~= old_lines.map_values(|l: Vec<u8>| l@) + lines_go(prev, old_cur));
            }
        } else {
            cur.push(b);
            proof {
                assert(lines_go(prev, old_cur) == lines_go(content@.skip(i as int + 1), cur@));
            }
        }
        i = i + 1;
    }
    proof {
        assert(content@.skip(n as int) =~= Seq::<u8>::empty());
    }
    let ghost old_lines = lines@;
    let ghost old_cur = cur@;
    lines.push(cur);
    proof {
        assert(lines_go(Seq::<u8>::empty(), old_cur) == seq![old_cur]);
        assert(lines@.map_values(|l: Vec<u8>| l@) =~= old_lines.map_values(|l: Vec<u8>| l@).push(
            old_cur,
        ));
        assert(lines@.map_values(|l: Vec<u8>| l@) =~= old_lines.map_values(|l: Vec<u8>| l@)
            + seq![old_cur]);
    }
    lines
}

/// What one line does to the map under construction. A line is a candidate
/// only if, case-folded, it contains "gear" or "rpmlimit"; a candidate must
/// split into exactly two whitespace tokens, else it is skipped; an
/// unrecognized key is ignored; a recognized key whose value does not parse
/// makes the whole load fail.
pub enum LineAction {
    Skip,
    Assign(GearKey, u32),
    Fail,
}

pub open spec fn line_action(line: Seq<u8>) -> LineAction {
    let low = lower_seq(line);
    if !(contains_seq(low, gear_stem()) || contains_seq(low, rpmlimit_key())) {
        LineAction::Skip
    } else {
        let toks = tokens_of(low);
        if toks.len() != 2 {
            LineAction::Skip
        } else {
            match key_of(toks[0]) {
                None => LineAction::Skip,
                Some(k) => match parse_rpm_spec(toks[1]) {
                    Some(v) => LineAction::Assign(k, v),
                    None => LineAction::Fail,
                },
            }
        }
    }
}

/// The map that results from applying the lines in order to `m`, or `None`
/// as soon as one line fails.
pub open spec fn load_go(m: GearMap, lines: Seq<Seq<u8>>) -> Option<GearMap>
    decreases lines.len(),
{
    if lines.len() == 0 {
        Some(m)
    } else {
        match line_action(lines[0]) {
            LineAction::Skip => load_go(m, lines.drop_first()),
            LineAction::Assign(k, v) => load_go(set_key(m, k, v), lines.drop_first()),
            LineAction::Fail => None,
        }
    }
}

/// The gear map a whole configuration file denotes, starting from the
/// all-unknown default, or `None` when a recognized key's value fails to
/// parse.
pub open spec fn gear_map_of(content: Seq<u8>) -> Option<GearMap> {
    load_go(default_gear_map(), lines_of(content))
}

fn gear_needle() -> (v: Vec<u8>)
    ensures
        v@ == gear_stem(),
{
    let mut v: Vec<u8> = Vec::new();
    v.push('g' as u8);
    v.push('e' as u8);
    v.push('a' as u8);
    v.push('r' as u8);
    proof {
        assert(v@ =~= gear_stem());
    }
    v
}

fn limit_needle() -> (v: Vec<u8>)
    ensures
        v@ == rpmlimit_key(),
{
    let mut v: Vec<u8> = Vec::new();
    v.push('r' as u8);
    v.push('p' as u8);
    v.push('m' as u8);
    v.push('l' as u8);
    v.push('i' as u8);
    v.push('m' as u8);
    v.push('i' as u8);
    v.push('t' as u8);
    proof {
        assert(v@ =~= rpmlimit_key());
    }
    v
}

impl GearMap {
    /// Reads a whole gear configuration file (as bytes) into a map. Exactly
    /// the lines `line_action` recognizes take effect, in file order; a
    /// recognized key whose value does not parse aborts the load with
    /// `ConfigParseError` so the caller keeps its previous map.
    pub fn load_from_bytes(content: &[u8]) -> (r: Result<GearMap, RBR2G29Error>)
        ensures
            match r {
                Ok(m) => gear_map_of(content@) == Some(m),
                Err(e) => gear_map_of(content@) is None && e == RBR2G29Error::ConfigParseError,
            },
    {
        let lines = split_lines(content);
        let gear_sub = gear_needle();
        let limit_sub = limit_needle();
        let mut m = GearMap::default();
        let ghost all = lines@.map_values(|l: Vec<u8>| l@);
        let n = lines.len();
        let mut i: usize = 0;
        proof {
            assert(all.skip(0) =~= all);
        }
        while i < n
            invariant
                n == lines@.len(),
                i <= n,
                all == lines@.map_values(|l: Vec<u8>| l@),
                all == lines_of(content@),
                gear_sub@ == gear_stem(),
                limit_sub@ == rpmlimit_key(),
                gear_map_of(content@) == load_go(m, all.skip(i as int)),
            decreases n - i,
        {
            let ghost rest = all.skip(i as int);
            proof {
                assert(rest[0] == all[i as int]);
                assert(all[i as int] == lines@[i as int]@);
                assert(rest.drop_first() =~= all.skip(i as int + 1));
            }
            let low = to_lower_vec(lines[i].as_slice());
            if contains_bytes(low.as_slice(), gear_sub.as_slice()) || contains_bytes(
                low.as_slice(),
                limit_sub.as_slice(),
            ) {
                let toks = tokenize(low.as_slice());
                proof {
                    assert(toks@.map_values(|t: Vec<u8>| t@) == tokens_of(lower_seq(rest[0])));
                }
                if toks.len() == 2 {
                    proof {
                        assert(toks@.map_values(|t: Vec<u8>| t@)[0] == toks@[0]@);
                        assert(toks@.map_values(|t: Vec<u8>| t@)[1] == toks@[1]@);
                    }
                    match classify_key(toks[0].as_slice()) {
                        Some(k) => {
                            match parse_rpm(toks[1].as_slice()) {
                                Some(v) => {
                                    proof {
                                        assert(line_action(rest[0]) == LineAction::Assign(k, v));
                                    }
                                    m = apply_key(m, k, v);
                                },
                                None => {
                                    proof {
                                        assert(line_action(rest[0]) == LineAction::Fail);
                                    }
                                    return Err(RBR2G29Error::ConfigParseError);
                                },
                            }
                        },
                        None => {
                            proof {
                                assert(line_action(rest[0]) == LineAction::Skip);
                            }
                        },
                    }
                } else {
                    proof {
                        assert(line_action(rest[0]) == LineAction::Skip);
                    }
                }
            } else {
                proof {
                    assert(line_action(rest[0]) == LineAction::Skip);
                }
            }
            i = i + 1;
        }
        proof {
            assert(all.skip(n as int) =~= Seq::<Seq<u8>>::empty());
        }
        Ok(m)
    }
}

} // verus!
