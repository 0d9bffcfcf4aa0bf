//! Settings files: lines of `key=value`, with comments after `;` or `#`.

use vstd::prelude::*;
use vstd::string::*;

verus! {

/// Why a settings line or value could not be used.
#[derive(Clone, Copy, Debug, PartialEq, Eq, Structural)]
pub enum ConfigError {
    /// A line with content but no `=`.
    LineUnexpected,
    /// A key that the file does not set.
    MissingKey,
    /// A value that is no decimal `i32`.
    NotAnInteger,
}

/// Whether `c` is white space in Unicode's sense (`char::is_whitespace`).
pub open spec fn is_space(c: char) -> bool {
    ('\u{9}' <= c <= '\u{d}') || c == ' ' || c == '\u{85}' || c == '\u{a0}' || c == '\u{1680}'
        || ('\u{2000}' <= c <= '\u{200a}') || c == '\u{2028}' || c == '\u{2029}' || c == '\u{202f}'
        || c == '\u{205f}' || c == '\u{3000}'
}

fn space(c: char) -> (r: bool)
    ensures
        r == is_space(c),
{
    ('\u{9}' <= c && c <= '\u{d}') || c == ' ' || c == '\u{85}' || c == '\u{a0}' || c == '\u{1680}'
        || ('\u{2000}' <= c && c <= '\u{200a}') || c == '\u{2028}' || c == '\u{2029}' || c == '\u{202f}'
        || c == '\u{205f}' || c == '\u{3000}'
}

/// The index of the first `a` or `b` in `s`, or its length if there is none.
pub open spec fn first_of(s: Seq<char>, a: char, b: char) -> int
    decreases s.len(),
{
    if s.len() == 0 {
        0
    } else if first_of(s.drop_last(), a, b) < s.len() - 1 {
        first_of(s.drop_last(), a, b)
    } else if s.last() == a || s.last() == b {
        s.len() - 1
    } else {
        s.len() as int
    }
}

proof fn lemma_first_of(s: Seq<char>, a: char, b: char)
    ensures
        0 <= first_of(s, a, b) <= s.len(),
        forall|j: int| 0 <= j < first_of(s, a, b) ==> s[j] != a && s[j] != b,
        first_of(s, a, b) < s.len() ==> (s[first_of(s, a, b)] == a || s[first_of(s, a, b)] == b),
    decreases s.len(),
{
    if s.len() > 0 {
        let d = s.drop_last();
        lemma_first_of(d, a, b);
        assert forall|j: int| 0 <= j < first_of(s, a, b) implies s[j] != a && s[j] != b by {
            if j < d.len() {
                assert(s[j] == d[j]);
            }
        }
        if first_of(s, a, b) < d.len() {
            assert(s[first_of(s, a, b)] == d[first_of(s, a, b)]);
        }
    }
}

/// Finds the first `a` or `b` in `s` from `from` on.
fn find_first(s: &str, from: usize, n: usize, a: char, b: char) -> (r: usize)
    requires
        n == s@.len(),
        from <= n,
        forall|j: int| 0 <= j < from ==> s@[j] != a && s@[j] != b,
    ensures
        r == first_of(s@, a, b),
{
    proof {
        lemma_first_of(s@, a, b);
    }
    let mut i = from;
    while i < n
        invariant
            n == s@.len(),
            from <= i <= n,
            forall|j: int| 0 <= j < i ==> s@[j] != a && s@[j] != b,
        decreases n - i,
    {
        let c = s.get_char(i);
        if c == a || c == b {
            proof {
                lemma_first_unique(s@, a, b, i as int);
            }
            return i;
        }
        i = i + 1;
    }
    proof {
        lemma_first_unique(s@, a, b, n as int);
    }
    n
}

proof fn lemma_first_unique(s: Seq<char>, a: char, b: char, i: int)
    requires
        0 <= i <= s.len(),
        forall|j: int| 0 <= j < i ==> s[j] != a && s[j] != b,
        i < s.len() ==> (s[i] == a || s[i] == b),
    ensures
        first_of(s, a, b) == i,
{
    lemma_first_of(s, a, b);
    let f = first_of(s, a, b);
    if f < i {
        assert(s[f] != a && s[f] != b);
    }
    if i < f {
        assert(s[i] != a && s[i] != b);
    }
}

pub open spec fn null_value() -> Seq<char> {
    seq!['N', 'U', 'L', 'L']
}

/// What a line of a settings file sets: nothing for a line that is blank
/// once its comment is cut off or whose value is `NULL`; the key before the
/// first `=` and the value up to the next `=`; `LineUnexpected` for content
/// without `=`.
pub open spec fn line_entry(s: Seq<char>) -> Result<Option<(Seq<char>, Seq<char>)>, ConfigError> {
    let t = s.subrange(0, first_of(s, ';', '#'));
    let e1 = first_of(t, '=', '=');
    let rest = t.subrange(e1 + 1, t.len() as int);
    let value = rest.subrange(0, first_of(rest, '=', '='));
    if forall|i: int| 0 <= i < t.len() ==> is_space(#[trigger] t[i]) {
        Ok(None)
    } else if e1 == t.len() {
        Err(ConfigError::LineUnexpected)
    } else if value == null_value() {
        Ok(None)
    } else {
        Ok(Some((t.subrange(0, e1), value)))
    }
}

/// The settings that entries `ks`, `vs` make, later entries overriding
/// earlier ones.
pub open spec fn entries_map(ks: Seq<String>, vs: Seq<String>) -> Map<Seq<char>, Seq<char>>
    decreases ks.len(),
{
    if ks.len() == 0 || vs.len() == 0 {
        Map::empty()
    } else {
        entries_map(ks.drop_last(), vs.drop_last()).insert(ks.last()@, vs.last()@)
    }
}

proof fn lemma_last_match(ks: Seq<String>, vs: Seq<String>, k: Seq<char>, j: int)
    requires
        ks.len() == vs.len(),
        -1 <= j < ks.len(),
        forall|m: int| j < m < ks.len() ==> (#[trigger] ks[m])@ != k,
        j >= 0 ==> ks[j]@ == k,
    ensures
        j >= 0 ==> entries_map(ks, vs).contains_key(k) && entries_map(ks, vs)[k] == vs[j]@,
        j < 0 ==> !entries_map(ks, vs).contains_key(k),
    decreases ks.len(),
{
    if ks.len() > 0 {
        if j < ks.len() - 1 {
            assert(ks[ks.len() - 1]@ != k);
            let d = ks.drop_last();
            assert forall|m: int| j < m < d.len() implies (#[trigger] d[m])@ != k by {
                assert(d[m] == ks[m]);
            }
            lemma_last_match(d, vs.drop_last(), k, j);
            if j >= 0 {
                assert(d[j] == ks[j]);
                assert(vs.drop_last()[j] == vs[j]);
            }
        }
    }
}

pub open spec fn is_digit(c: char) -> bool {
    '0' <= c <= '9'
}

/// The number that the decimal digits `s` spell.
pub open spec fn digits_value(s: Seq<char>) -> int
    decreases s.len(),
{
    if s.len() == 0 {
        0
    } else {
        digits_value(s.drop_last()) * 10 + (s.last() as int - '0' as int)
    }
}

pub open spec fn all_digits(s: Seq<char>) -> bool {
    s.len() >= 1 && forall|i: int| 0 <= i < s.len() ==> is_digit(#[trigger] s[i])
}

/// The `i32` that `s` spells in decimal, as `str::parse` reads it: an
/// optional sign, then one or more digits, and a value in range.
pub open spec fn parse_i32(s: Seq<char>) -> Option<i32> {
    if s.len() > 0 && s[0] == '-' {
        let v = -digits_value(s.drop_first());
        if all_digits(s.drop_first()) && v >= i32::MIN { Some(v as i32) } else { None }
    } else {
        let d = if s.len() > 0 && s[0] == '+' { s.drop_first() } else { s };
        let v = digits_value(d);
        if all_digits(d) && v <= i32::MAX { Some(v as i32) } else { None }
    }
}

proof fn lemma_digits_grow(s: Seq<char>, i: int)
    requires
        0 <= i <= s.len(),
        forall|j: int| 0 <= j < s.len() ==> is_digit(#[trigger] s[j]),
    ensures
        digits_value(s) >= digits_value(s.subrange(0, i)) >= 0,
    decreases s.len(),
{
    if s.len() > 0 {
        let d = s.drop_last();
        assert forall|j: int| 0 <= j < d.len() implies is_digit(#[trigger] d[j]) by {
            assert(d[j] == s[j]);
        }
        if i < s.len() {
            lemma_digits_grow(d, i);
            assert(d.subrange(0, i) =~= s.subrange(0, i));
        } else {
            assert(s.subrange(0, i) =~= s);
        }
        lemma_digits_grow(d, d.len() as int);
        assert(d.subrange(0, d.len() as int) =~= d);
        assert(is_digit(s[s.len() - 1]));
    } else {
        assert(s.subrange(0, i) =~= s);
    }
}

/// The value of the digits of `s` from `from` on, or `None` when one is no
/// digit, there are none, or the value exceeds `limit`.
fn digits_upto(s: &Vec<char>, from: usize, limit: i64) -> (r: Option<i64>)
    requires
        from <= s@.len(),
        0 <= limit <= 0x8000_0000,
    ensures
        ({
            let d = s@.subrange(from as int, s@.len() as int);
            match r {
                Some(v) => all_digits(d) && v == digits_value(d) && 0 <= v <= limit,
                None => !(all_digits(d) && digits_value(d) <= limit),
            }
        }),
{
    let ghost d = s@.subrange(from as int, s@.len() as int);
    if from == s.len() {
        return None;
    }
    let mut acc: i64 = 0;
    let mut i = from;
    while i < s.len()
        invariant
            from <= i <= s@.len(),
            d == s@.subrange(from as int, s@.len() as int),
            0 <= limit <= 0x8000_0000,
            forall|j: int| 0 <= j < i - from ==> is_digit(#[trigger] d[j]),
            acc == digits_value(d.subrange(0, i - from)),
            0 <= acc <= limit,
        decreases s@.len() - i,
    {
        let c = s[i];
        if !('0' <= c && c <= '9') {
            assert(!is_digit(d[i - from]));
            return None;
        }
        let ghost p = d.subrange(0, i - from);
        assert(d.subrange(0, i + 1 - from).drop_last() =~= p);
        acc = acc * 10 + (c as i64 - '0' as i64);
        i = i + 1;
        if acc > limit {
            proof {
                if all_digits(d) {
                    lemma_digits_grow(d, i - from);
                }
            }
            return None;
        }
    }
    assert(d.subrange(0, i - from) =~= d);
    Some(acc)
}

/// Reads `s` as a decimal `i32` (see `parse_i32`).
pub fn parse_i32_exec(s: &Vec<char>) -> (r: Option<i32>)
    ensures
        r == parse_i32(s@),
{
    if s.len() > 0 && s[0] == '-' {
        let r = digits_upto(s, 1, 0x8000_0000);
        assert(s@.subrange(1, s@.len() as int) =~= s@.drop_first());
        match r {
            Some(v) => Some((-v) as i32),
            None => None,
        }
    } else {
        let from: usize = if s.len() > 0 && s[0] == '+' { 1 } else { 0 };
        let r = digits_upto(s, from, 0x7fff_ffff);
        if from == 1 {
            assert(s@.subrange(1, s@.len() as int) =~= s@.drop_first());
        }
        assert(s@.subrange(0, s@.len() as int) =~= s@);
        match r {
            Some(v) => Some(v as i32),
            None => None,
        }
    }
}

/// What reading `key` of `m` as an integer gives.
pub open spec fn setting_res(m: Map<Seq<char>, Seq<char>>, key: Seq<char>) -> Result<i32, ConfigError> {
    if !m.contains_key(key) {
        Err(ConfigError::MissingKey)
    } else {
        match parse_i32(m[key]) {
            Some(v) => Ok(v),
            None => Err(ConfigError::NotAnInteger),
        }
    }
}

/// What reading `key` of `m` as an `i16` gives.
pub open spec fn setting16_res(m: Map<Seq<char>, Seq<char>>, key: Seq<char>) -> Result<i16, ConfigError> {
    match setting_res(m, key) {
        Ok(v) => if i16::MIN <= v <= i16::MAX { Ok(v as i16) } else { Err(ConfigError::NotAnInteger) },
        Err(e) => Err(e),
    }
}

/// What reading `key` of `m` as an `i16`, 0 where unset, gives.
pub open spec fn setting16_or_zero_res(m: Map<Seq<char>, Seq<char>>, key: Seq<char>) -> Result<i16, ConfigError> {
    if m.contains_key(key) { setting16_res(m, key) } else { Ok(0) }
}

/// Whether `e` is the first error among the readings `rs`.
pub open spec fn first_error<T>(rs: Seq<Result<T, ConfigError>>, e: ConfigError) -> bool {
    exists|j: int| 0 <= j < rs.len() && rs[j] == Err::<T, ConfigError>(e) && forall|k: int| 0 <= k < j ==> (#[trigger] rs[k]) is Ok
}

/// The settings of one file.
pub struct ConfigFile {
    pub keys: Vec<String>,
    pub values: Vec<String>,
}

/// The characters of `s`.
fn chars_of(s: &str) -> (r: Vec<char>)
    ensures
        r@ == s@,
{
    let n = s.unicode_len();
    let mut r: Vec<char> = Vec::new();
    let mut i: usize = 0;
    while i < n
        invariant
            n == s@.len(),
            i <= n,
            r@ == s@.subrange(0, i as int),
        decreases n - i,
    {
        r.push(s.get_char(i));
        i = i + 1;
        assert(r@ =~= s@.subrange(0, i as int));
    }
    assert(r@ =~= s@);
    r
}

/// Whether `s` holds exactly the characters `k`.
fn same_chars(s: &String, k: &Vec<char>) -> (r: bool)
    ensures
        r == (s@ == k@),
{
    let t = s.as_str();
    let n = t.unicode_len();
    if n != k.len() {
        return false;
    }
    let mut i: usize = 0;
    while i < n
        invariant
            n == t@.len(),
            t@ == s@,
            n == k@.len(),
            i <= n,
            forall|j: int| 0 <= j < i ==> t@[j] == k@[j],
        decreases n - i,
    {
        if t.get_char(i) != k[i] {
            return false;
        }
        i = i + 1;
    }
    assert(s@ =~= k@);
    true
}

impl ConfigFile {
    pub open spec fn wf(&self) -> bool {
        self.keys@.len() == self.values@.len()
    }

    /// The settings, by key.
    pub open spec fn settings(&self) -> Map<Seq<char>, Seq<char>> {
        entries_map(self.keys@, self.values@)
    }

    /// A file with no settings.
    pub fn new() -> (r: ConfigFile)
        ensures
            r.wf(),
            r.settings() == Map::<Seq<char>, Seq<char>>::empty(),
    {
        ConfigFile { keys: Vec::new(), values: Vec::new() }
    }

    /// Takes one line of the file (see `line_entry`): a setting it makes
    /// replaces any earlier one of the same key.
    pub fn insert_line(&mut self, line: &str) -> (r: Result<(), ConfigError>)
        requires
            old(self).wf(),
        ensures
            final(self).wf(),
            match line_entry(line@) {
                Err(e) => r == Err::<(), ConfigError>(e) && final(self).settings() == old(self).settings(),
                Ok(None) => r is Ok && final(self).settings() == old(self).settings(),
                Ok(Some((k, v))) => r is Ok && final(self).settings() == old(self).settings().insert(k, v),
            },
    {
        let n = line.unicode_len();
        let cut = find_first(line, 0, n, ';', '#');
        let t = line.substring_char(0, cut);
        let tn = t.unicode_len();
        let mut blank = true;
        let mut i: usize = 0;
        while i < tn
            invariant
                tn == t@.len(),
                i <= tn,
                blank == forall|j: int| 0 <= j < i ==> is_space(#[trigger] t@[j]),
            decreases tn - i,
        {
            if !space(t.get_char(i)) {
                blank = false;
            }
            i = i + 1;
        }
        if blank {
            return Ok(());
        }
        let e1 = find_first(t, 0, tn, '=', '=');
        if e1 == tn {
            return Err(ConfigError::LineUnexpected);
        }
        let rest = t.substring_char(e1 + 1, tn);
        let rn = rest.unicode_len();
        let e2 = find_first(rest, 0, rn, '=', '=');
        let value = rest.substring_char(0, e2);
        let vc = chars_of(value);
        if vc.len() == 4 && vc[0] == 'N' && vc[1] == 'U' && vc[2] == 'L' && vc[3] == 'L' {
            assert(value@ =~= null_value());
            return Ok(());
        }
        proof {
            if value@ == null_value() {
                assert(vc@[0] == 'N' && vc@[1] == 'U' && vc@[2] == 'L' && vc@[3] == 'L');
            }
        }
        let key = t.substring_char(0, e1);
        self.keys.push(String::from_str(key));
        self.values.push(String::from_str(value));
        proof {
            assert(self.keys@.drop_last() =~= old(self).keys@);
            assert(self.values@.drop_last() =~= old(self).values@);
        }
        Ok(())
    }

    /// The position of the entry that sets `key`, if any.
    fn find(&self, key: &Vec<char>) -> (r: Option<usize>)
        requires
            self.wf(),
        ensures
            r is None ==> !self.settings().contains_key(key@),
            r is Some ==> r->Some_0 < self.values@.len() && self.settings().contains_key(key@)
                && self.settings()[key@] == self.values@[r->Some_0 as int]@,
    {
        let mut i = self.keys.len();
        while i > 0
            invariant
                self.wf(),
                i <= self.keys@.len(),
                forall|m: int| i <= m < self.keys@.len() ==> (#[trigger] self.keys@[m])@ != key@,
            decreases i,
        {
            if same_chars(&self.keys[i - 1], key) {
                proof {
                    lemma_last_match(self.keys@, self.values@, key@, i - 1);
                }
                return Some(i - 1);
            }
            i = i - 1;
        }
        proof {
            lemma_last_match(self.keys@, self.values@, key@, -1);
        }
        None
    }

    /// The integer that `key` is set to: `None` where it is not set, and
    /// `NotAnInteger` where its value is no decimal `i32`.
    pub fn get(&self, key: &str) -> (r: Result<Option<i32>, ConfigError>)
        requires
            self.wf(),
        ensures
            !self.settings().contains_key(key@) ==> r == Ok::<Option<i32>, ConfigError>(None),
            self.settings().contains_key(key@) ==> match parse_i32(self.settings()[key@]) {
                Some(v) => r == Ok::<Option<i32>, ConfigError>(Some(v)),
                None => r == Err::<Option<i32>, ConfigError>(ConfigError::NotAnInteger),
            },
    {
        let k = chars_of(key);
        self.get_chars(&k)
    }

    /// The integer that the key spelled by `key` is set to (see `get`).
    pub fn get_chars(&self, key: &Vec<char>) -> (r: Result<Option<i32>, ConfigError>)
        requires
            self.wf(),
        ensures
            !self.settings().contains_key(key@) ==> r == Ok::<Option<i32>, ConfigError>(None),
            self.settings().contains_key(key@) ==> match parse_i32(self.settings()[key@]) {
                Some(v) => r == Ok::<Option<i32>, ConfigError>(Some(v)),
                None => r == Err::<Option<i32>, ConfigError>(ConfigError::NotAnInteger),
            },
    {
        match self.find(key) {
            None => Ok(None),
            Some(i) => {
                let v = chars_of(self.values[i].as_str());
                match parse_i32_exec(&v) {
                    Some(n) => Ok(Some(n)),
                    None => Err(ConfigError::NotAnInteger),
                }
            },
        }
    }

    /// The integer that `key` is set to; `MissingKey` where it is not set.
    pub fn require(&self, key: &Vec<char>) -> (r: Result<i32, ConfigError>)
        requires
            self.wf(),
        ensures
            !self.settings().contains_key(key@) ==> r == Err::<i32, ConfigError>(ConfigError::MissingKey),
            self.settings().contains_key(key@) ==> match parse_i32(self.settings()[key@]) {
                Some(v) => r == Ok::<i32, ConfigError>(v),
                None => r == Err::<i32, ConfigError>(ConfigError::NotAnInteger),
            },
            r == setting_res(self.settings(), key@),
    {
        match self.get_chars(key) {
            Ok(Some(v)) => Ok(v),
            Ok(None) => Err(ConfigError::MissingKey),
            Err(e) => Err(e),
        }
    }

    /// The value that the key spelled by `key` is set to, if any.
    pub fn lookup(&self, key: &Vec<char>) -> (r: Option<&String>)
        requires
            self.wf(),
        ensures
            r is None <==> !self.settings().contains_key(key@),
            r is Some ==> r->Some_0@ == self.settings()[key@],
    {
        match self.find(key) {
            Some(i) => Some(&self.values[i]),
            None => None,
        }
    }

    /// The value that `key` is set to, if any.
    pub fn get_string(&self, key: &str) -> (r: Option<&String>)
        requires
            self.wf(),
        ensures
            r is None <==> !self.settings().contains_key(key@),
            r is Some ==> r->Some_0@ == self.settings()[key@],
    {
        let k = chars_of(key);
        match self.find(&k) {
            Some(i) => Some(&self.values[i]),
            None => None,
        }
    }
}

/// The decimal digits of `n`.
pub open spec fn dec(n: nat) -> Seq<char>
    decreases n,
{
    if n < 10 {
        seq![digit(n)]
    } else {
        dec(n / 10).push(digit(n % 10))
    }
}

pub open spec fn digit(d: nat) -> char {
    ((48 + d) as u8) as char
}

pub fn push_decimal(out: &mut Vec<char>, n: u32)
    ensures
        final(out)@ == old(out)@ + dec(n as nat),
    decreases n,
{
    if n >= 10 {
        push_decimal(out, n / 10);
    }
    let d = (n % 10) as u8;
    let c = (48u8 + d) as char;
    proof {
        assert(c == digit((n % 10) as nat));
    }
    out.push(c);
    assert(out@ =~= old(out)@ + dec(n as nat));
}

/// The key `prefix`, then `n` in decimal, then `suffix`.
pub open spec fn numbered(prefix: Seq<char>, n: nat, suffix: Seq<char>) -> Seq<char> {
    prefix + dec(n) + suffix
}

pub fn numbered_key(prefix: &Vec<char>, n: u32, suffix: &Vec<char>) -> (r: Vec<char>)
    ensures
        r@ == numbered(prefix@, n as nat, suffix@),
{
    let mut k = prefix.clone();
    push_decimal(&mut k, n);
    let mut i: usize = 0;
    let ghost base = k@;
    while i < suffix.len()
        invariant
            i <= suffix@.len(),
            base == prefix@ + dec(n as nat),
            k@ == base + suffix@.subrange(0, i as int),
        decreases suffix@.len() - i,
    {
        k.push(suffix[i]);
        i = i + 1;
        assert(k@ =~= base + suffix@.subrange(0, i as int));
    }
    assert(suffix@.subrange(0, i as int) =~= suffix@);
    k
}

/// The integer that `key` is set to in `m`, if it is set to one.
pub open spec fn setting(m: Map<Seq<char>, Seq<char>>, key: Seq<char>) -> Option<i32> {
    if m.contains_key(key) { parse_i32(m[key]) } else { None }
}

/// The decimal form of `n`, with a leading `-` when negative.
pub open spec fn sdec(n: int) -> Seq<char> {
    if n < 0 { seq!['-'] + dec((-n) as nat) } else { dec(n as nat) }
}

/// The `i16` that `key` is set to in `m`, if it is set to one.
pub open spec fn setting16(m: Map<Seq<char>, Seq<char>>, key: Seq<char>) -> Option<i16> {
    match setting(m, key) {
        Some(v) => if i16::MIN <= v <= i16::MAX { Some(v as i16) } else { None },
        None => None,
    }
}

/// The `i16` that `key` is set to in `m`, 0 where it is not set, and
/// `None` where it is set to something else.
pub open spec fn setting16_or_zero(m: Map<Seq<char>, Seq<char>>, key: Seq<char>) -> Option<i16> {
    if m.contains_key(key) { setting16(m, key) } else { Some(0) }
}

impl ConfigFile {
    /// The `i16` that `key` is set to: `MissingKey` where it is not set,
    /// `NotAnInteger` where its value is no decimal `i16`.
    pub fn require_i16(&self, key: &Vec<char>) -> (r: Result<i16, ConfigError>)
        requires
            self.wf(),
        ensures
            r is Ok <==> setting16(self.settings(), key@) is Some,
            r is Ok ==> r->Ok_0 == setting16(self.settings(), key@)->Some_0,
            r == setting16_res(self.settings(), key@),
    {
        match self.require(key) {
            Ok(v) => if i16::MIN as i32 <= v && v <= i16::MAX as i32 { Ok(v as i16) } else { Err(ConfigError::NotAnInteger) },
            Err(e) => Err(e),
        }
    }

    /// The `i16` that `key` is set to, 0 where it is not set; `NotAnInteger`
    /// where its value is no decimal `i16`.
    pub fn i16_or_zero(&self, key: &Vec<char>) -> (r: Result<i16, ConfigError>)
        requires
            self.wf(),
        ensures
            r is Ok <==> setting16_or_zero(self.settings(), key@) is Some,
            r is Ok ==> r->Ok_0 == setting16_or_zero(self.settings(), key@)->Some_0,
            r == setting16_or_zero_res(self.settings(), key@),
    {
        match self.require(key) {
            Ok(v) => if i16::MIN as i32 <= v && v <= i16::MAX as i32 { Ok(v as i16) } else { Err(ConfigError::NotAnInteger) },
            Err(ConfigError::MissingKey) => Ok(0),
            Err(e) => Err(e),
        }
    }
}

/// `n` in decimal, with a leading `-` when negative.
pub fn signed_decimal(n: i16) -> (r: Vec<char>)
    ensures
        r@ == sdec(n as int),
{
    let mut r: Vec<char> = Vec::new();
    if n < 0 {
        r.push('-');
        push_decimal(&mut r, (-(n as i32)) as u32);
        assert(r@ =~= sdec(n as int));
    } else {
        push_decimal(&mut r, n as u32);
        assert(r@ =~= sdec(n as int));
    }
    r
}

} // verus!
