use crate::error::Error;
use crate::text::chars::{chars_of, push_char, string_of_range, utf8_str};
use vstd::prelude::*;
use vstd::slice::slice_to_vec;
use vstd::utf8::{decode_utf8, valid_utf8};

verus! {

/// A process exit code.
#[derive(Copy, Clone, Debug, PartialEq, Eq, Structural)]
pub struct ExitCode(i32);

impl ExitCode {
    /// The code as a plain integer.
    pub closed spec fn spec_code(self) -> int {
        self.0 as int
    }

    pub fn as_i32(self) -> (r: i32)
        ensures
            r as int == self.spec_code(),
    {
        self.0
    }
}

/// Two exit codes are the same value exactly when they hold the same code.
pub proof fn lemma_exit_code_eq(a: ExitCode, b: ExitCode)
    ensures
        (a == b) <==> a.spec_code() == b.spec_code(),
{
}

impl From<i32> for ExitCode {
    fn from(value: i32) -> (r: ExitCode) {
        ExitCode(value)
    }
}

impl vstd::std_specs::convert::FromSpecImpl<i32> for ExitCode {
    open spec fn obeys_from_spec() -> bool {
        true
    }

    closed spec fn from_spec(value: i32) -> ExitCode {
        ExitCode(value)
    }
}

/// Whether a character has Unicode's White_Space property, as std documents
/// for `char::is_whitespace`.
pub open spec fn is_space(c: char) -> bool {
    let u = c as u32;
    ||| u == 0x9
    ||| u == 0xA
    ||| u == 0xB
    ||| u == 0xC
    ||| u == 0xD
    ||| u == 0x20
    ||| u == 0x85
    ||| u == 0xA0
    ||| u == 0x1680
    ||| (0x2000 <= u && u <= 0x200A)
    ||| u == 0x2028
    ||| u == 0x2029
    ||| u == 0x202F
    ||| u == 0x205F
    ||| u == 0x3000
}

fn is_space_char(c: char) -> (r: bool)
    ensures
        r == is_space(c),
{
    let u = c as u32;
    u == 0x9 || u == 0xA || u == 0xB || u == 0xC || u == 0xD || u == 0x20 || u == 0x85 || u == 0xA0
        || u == 0x1680 || (0x2000 <= u && u <= 0x200A) || u == 0x2028 || u == 0x2029 || u == 0x202F
        || u == 0x205F || u == 0x3000
}

/// The text with its leading whitespace dropped.
pub open spec fn trim_start(s: Seq<char>) -> Seq<char>
    decreases s.len(),
{
    if s.len() > 0 && is_space(s[0]) {
        trim_start(s.drop_first())
    } else {
        s
    }
}

/// The text with its trailing whitespace dropped.
pub open spec fn trim_end(s: Seq<char>) -> Seq<char>
    decreases s.len(),
{
    if s.len() > 0 && is_space(s.last()) {
        trim_end(s.drop_last())
    } else {
        s
    }
}

/// The text with whitespace dropped at both ends.
pub open spec fn trimmed(s: Seq<char>) -> Seq<char> {
    trim_end(trim_start(s))
}

pub proof fn lemma_trim_start_at(s: Seq<char>, i: int)
    requires
        0 <= i <= s.len(),
        forall|k: int| 0 <= k < i ==> is_space(#[trigger] s[k]),
        i == s.len() || !is_space(s[i]),
    ensures
        trim_start(s) == s.skip(i),
    decreases i,
{
    if i == 0 {
        assert(s.skip(0) =~= s);
    } else {
        assert(is_space(s[0]));
        let d = s.drop_first();
        assert forall|k: int| 0 <= k < i - 1 implies is_space(#[trigger] d[k]) by {
            assert(d[k] == s[k + 1]);
        }
        if i < s.len() {
            assert(d[i - 1] == s[i]);
        }
        lemma_trim_start_at(d, i - 1);
        assert(d.skip(i - 1) =~= s.skip(i));
    }
}

pub proof fn lemma_trim_end_at(s: Seq<char>, j: int)
    requires
        0 <= j <= s.len(),
        forall|k: int| j <= k < s.len() ==> is_space(#[trigger] s[k]),
        j == 0 || !is_space(s[j - 1]),
    ensures
        trim_end(s) == s.take(j),
    decreases s.len() - j,
{
    if j == s.len() {
        if s.len() > 0 && is_space(s.last()) {
            let d = s.drop_last();
            assert forall|k: int| d.len() <= k < d.len() implies is_space(#[trigger] d[k]) by {}
            lemma_trim_end_at(d, j - 1);
        }
        assert(s.take(j) =~= trim_end(s));
    } else {
        assert(is_space(s.last()));
        let d = s.drop_last();
        assert forall|k: int| j <= k < d.len() implies is_space(#[trigger] d[k]) by {
            assert(d[k] == s[k]);
        }
        lemma_trim_end_at(d, j);
        assert(d.take(j) =~= s.take(j));
    }
}

/// Whether a character is a decimal digit.
pub open spec fn is_digit(c: char) -> bool {
    let u = c as u32;
    0x30 <= u && u <= 0x39
}

/// Whether every character of a text is a decimal digit.
pub open spec fn all_digits(s: Seq<char>) -> bool
    decreases s.len(),
{
    if s.len() == 0 {
        true
    } else {
        all_digits(s.drop_last()) && is_digit(s.last())
    }
}

pub proof fn lemma_all_digits_from_forall(s: Seq<char>)
    requires
        forall|k: int| 0 <= k < s.len() ==> is_digit(#[trigger] s[k]),
    ensures
        all_digits(s),
    decreases s.len(),
{
    if s.len() > 0 {
        let d = s.drop_last();
        assert forall|k: int| 0 <= k < d.len() implies is_digit(#[trigger] d[k]) by {
            assert(d[k] == s[k]);
        }
        lemma_all_digits_from_forall(d);
        assert(is_digit(s.last()));
    }
}

pub proof fn lemma_not_all_digits(s: Seq<char>, k: int)
    requires
        0 <= k < s.len(),
        !is_digit(s[k]),
    ensures
        !all_digits(s),
    decreases s.len(),
{
    if k == s.len() - 1 {
        assert(s.last() == s[k]);
    } else {
        let d = s.drop_last();
        assert(d[k] == s[k]);
        lemma_not_all_digits(d, k);
    }
}

/// The value of a text of decimal digits, most significant first.
pub open spec fn digits_val(s: Seq<char>) -> int
    decreases s.len(),
{
    if s.len() == 0 {
        0
    } else {
        digits_val(s.drop_last()) * 10 + (s.last() as u32 - 0x30) as int
    }
}

pub proof fn lemma_digits_val_nonneg(s: Seq<char>)
    requires
        forall|k: int| 0 <= k < s.len() ==> is_digit(#[trigger] s[k]),
    ensures
        digits_val(s) >= 0,
    decreases s.len(),
{
    if s.len() > 0 {
        lemma_digits_val_nonneg(s.drop_last());
        assert(is_digit(s.last()));
    }
}

/// The integer a text denotes, as std's `i32` parsing reads it after the
/// text is trimmed: an optional sign, then one or more decimal digits, and a
/// value within the type's range; anything else is no integer.
pub open spec fn parse_i32(s: Seq<char>) -> Option<int> {
    let t = trimmed(s);
    if t.len() == 0 {
        None
    } else {
        let neg = t[0] == '-';
        let ds = if t[0] == '-' || t[0] == '+' {
            t.drop_first()
        } else {
            t
        };
        if ds.len() == 0 || !all_digits(ds) {
            None
        } else {
            let v = if neg {
                -digits_val(ds)
            } else {
                digits_val(ds)
            };
            if i32::MIN <= v <= i32::MAX {
                Some(v)
            } else {
                None
            }
        }
    }
}

/// Parses an `i32` from a character vector, as `parse_i32` says.
fn parse_i32_chars(chars: &Vec<char>) -> (r: Option<i32>)
    ensures
        match r {
            Some(v) => parse_i32(chars@) == Some(v as int),
            None => parse_i32(chars@) is None,
        },
{
    let len = chars.len();
    // trim whitespace at both ends
    let mut start: usize = 0;
    while start < len && is_space_char(chars[start])
        invariant
            start <= len,
            len == chars@.len(),
            forall|k: int| 0 <= k < start ==> is_space(#[trigger] chars@[k]),
        decreases len - start,
    {
        start = start + 1;
    }
    proof {
        lemma_trim_start_at(chars@, start as int);
    }
    let mut end: usize = len;
    while end > start && is_space_char(chars[end - 1])
        invariant
            start <= end <= len,
            len == chars@.len(),
            forall|k: int| end <= k < len ==> is_space(#[trigger] chars@[k]),
        decreases end,
    {
        end = end - 1;
    }
    let ghost t = chars@.subrange(start as int, end as int);
    proof {
        let ts = chars@.skip(start as int);
        assert forall|k: int| end - start <= k < ts.len() implies is_space(
            #[trigger] ts[k],
        ) by {
            assert(ts[k] == chars@[start + k]);
        }
        if end > start {
            assert(ts[end - start - 1] == chars@[end - 1]);
        }
        lemma_trim_end_at(ts, end - start as int);
        assert(ts.take(end - start as int) =~= t);
        assert(trimmed(chars@) == t);
    }
    if start == end {
        return None;
    }
    // optional sign
    let first = chars[start];
    let neg = first == '-';
    let ds_start = if first == '-' || first == '+' {
        start + 1
    } else {
        start
    };
    let ghost ds = chars@.subrange(ds_start as int, end as int);
    proof {
        assert(t[0] == chars@[start as int]);
        if first == '-' || first == '+' {
            assert(ds =~= t.drop_first());
        } else {
            assert(ds =~= t);
        }
    }
    if ds_start == end {
        return None;
    }
    // digits, with a cap high enough to decide the range check
    let mut acc: u64 = 0;
    let mut i = ds_start;
    let mut too_big = false;
    while i < end
        invariant
            start <= ds_start <= i <= end <= len,
            len == chars@.len(),
            ds_start < end,
            start < end,
            t == chars@.subrange(start as int, end as int),
            trimmed(chars@) == t,
            first == chars@[start as int],
            t[0] == first,
            neg == (t[0] == '-'),
            ds == (if t[0] == '-' || t[0] == '+' {
                t.drop_first()
            } else {
                t
            }),
            ds == chars@.subrange(ds_start as int, end as int),
            forall|k: int| 0 <= k < i - ds_start ==> is_digit(#[trigger] ds[k]),
            acc <= 0x2540BE3FF,
            !too_big ==> acc == digits_val(ds.take(i - ds_start)),
            too_big ==> digits_val(ds.take(i - ds_start)) > 0x80000000,
            too_big ==> forall|m: int| i - ds_start <= m <= ds.len() ==> digits_val(
                #[trigger] ds.take(m),
            ) > 0x80000000,
        decreases end - i,
    {
        let c = chars[i];
        proof {
            assert(ds[i - ds_start] == chars@[i as int]);
        }
        if !((0x30 <= c as u32) && (c as u32 <= 0x39)) {
            proof {
                assert(!is_digit(ds[i - ds_start]));
                lemma_not_all_digits(ds, i - ds_start);
            }
            return None;
        }
        let d = (c as u32 - 0x30) as u64;
        let ghost pre = ds.take(i - ds_start);
        proof {
            assert(ds.take(i + 1 - ds_start).drop_last() =~= pre);
            lemma_digits_val_nonneg(pre);
        }
        if !too_big {
            if acc > 0x3B9AC9FF {
                // ten digits so far exceed 999_999_999: the value, and every
                // longer digit run, is past the i32 range either way
                too_big = true;
                proof {
                    assert(ds.take(i + 1 - ds_start).last() == ds[i - ds_start]);
                    assert(digits_val(ds.take(i + 1 - ds_start)) == digits_val(pre) * 10 + (
                    chars@[i as int] as u32 - 0x30) as int);
                    assert(digits_val(ds.take(i + 1 - ds_start)) > 0x80000000);
                    assert forall|m: int|
                        i + 1 - ds_start <= m <= ds.len() implies digits_val(
                        #[trigger] ds.take(m),
                    ) > 0x80000000 by {
                        lemma_digits_within(ds, i + 1 - ds_start, m);
                    }
                }
            } else {
                acc = acc * 10 + d;
                proof {
                    assert(acc == digits_val(ds.take(i + 1 - ds_start)));
                }
            }
        }
        i = i + 1;
    }
    proof {
        assert(ds.take(ds.len() as int) =~= ds);
        lemma_all_digits_from_forall(ds);
    }
    if too_big {
        return None;
    }
    if neg {
        if acc > 0x80000000 {
            return None;
        }
        let v = -(acc as i64);
        return Some(v as i32);
    }
    if acc > 0x7FFFFFFF {
        return None;
    }
    Some(acc as i32)
}

/// A digit prefix whose value is past the bound keeps every longer prefix
/// past it: a further character multiplies the value by ten and adds at
/// least `-0x30`.
proof fn lemma_digits_within(ds: Seq<char>, from: int, m: int)
    requires
        0 <= from <= m <= ds.len(),
        digits_val(ds.take(from)) > 0x80000000,
    ensures
        digits_val(ds.take(m)) > 0x80000000,
    decreases m - from,
{
    if from < m {
        let t = ds.take(from + 1);
        assert(t.drop_last() =~= ds.take(from));
        assert(t.last() == ds[from]);
        assert(ds[from] as u32 >= 0);
        assert(digits_val(t) == digits_val(ds.take(from)) * 10 + (ds[from] as u32 - 0x30) as int);
        lemma_digits_within(ds, from + 1, m);
    }
}

/// What a command expects: the path of the script it runs, and for each kind
/// of fixture the fixture file's path and contents, where that file exists.
pub struct CommandSpec {
    cmd_path: String,
    stdout: Option<(String, Vec<u8>)>,
    stdout_pat: Option<(String, Vec<u8>)>,
    stderr: Option<(String, Vec<u8>)>,
    exit_code: Option<(String, Vec<u8>)>,
}

impl CommandSpec {
    pub closed spec fn spec_cmd_path(&self) -> Seq<char> {
        self.cmd_path@
    }

    pub closed spec fn spec_stdout(&self) -> Option<(Seq<char>, Seq<u8>)> {
        match self.stdout {
            None => None,
            Some(pb) => Some((pb.0@, pb.1@)),
        }
    }

    pub closed spec fn spec_stdout_pat(&self) -> Option<(Seq<char>, Seq<u8>)> {
        match self.stdout_pat {
            None => None,
            Some(pb) => Some((pb.0@, pb.1@)),
        }
    }

    pub closed spec fn spec_stderr(&self) -> Option<(Seq<char>, Seq<u8>)> {
        match self.stderr {
            None => None,
            Some(pb) => Some((pb.0@, pb.1@)),
        }
    }

    pub closed spec fn spec_exit_code(&self) -> Option<(Seq<char>, Seq<u8>)> {
        match self.exit_code {
            None => None,
            Some(pb) => Some((pb.0@, pb.1@)),
        }
    }

    /// Creates a command spec from the script path and the fixture files
    /// found beside it, each as its path and its contents.
    pub fn new(
        cmd_path: String,
        stdout: Option<(String, Vec<u8>)>,
        stdout_pat: Option<(String, Vec<u8>)>,
        stderr: Option<(String, Vec<u8>)>,
        exit_code: Option<(String, Vec<u8>)>,
    ) -> (r: CommandSpec)
        ensures
            r.spec_cmd_path() == cmd_path@,
            r.spec_stdout() == (match stdout {
                None => None::<(Seq<char>, Seq<u8>)>,
                Some(pb) => Some((pb.0@, pb.1@)),
            }),
            r.spec_stdout_pat() == (match stdout_pat {
                None => None::<(Seq<char>, Seq<u8>)>,
                Some(pb) => Some((pb.0@, pb.1@)),
            }),
            r.spec_stderr() == (match stderr {
                None => None::<(Seq<char>, Seq<u8>)>,
                Some(pb) => Some((pb.0@, pb.1@)),
            }),
            r.spec_exit_code() == (match exit_code {
                None => None::<(Seq<char>, Seq<u8>)>,
                Some(pb) => Some((pb.0@, pb.1@)),
            }),
    {
        CommandSpec { cmd_path, stdout, stdout_pat, stderr, exit_code }
    }

    /// The expected exit code: 0 where no exit-code fixture exists, else the
    /// integer its file holds, trimmed; a file that is not UTF-8 or not an
    /// integer is an error naming the file.
    pub fn exit_code(&self) -> (r: Result<ExitCode, Error>)
        ensures
            match self.spec_exit_code() {
                None => r matches Ok(c) && c.spec_code() == 0,
                Some((p, b)) => {
                    if !valid_utf8(b) {
                        r matches Err(Error::FileNotUtf8 { path }) && path@ == p
                    } else {
                        match parse_i32(decode_utf8(b)) {
                            Some(v) => r matches Ok(c) && c.spec_code() == v,
                            None => r matches Err(Error::FileNotInteger { path }) && path@ == p,
                        }
                    }
                },
            },
    {
        let pb = match &self.exit_code {
            None => {
                return Ok(ExitCode(0));
            },
            Some(pb) => pb,
        };
        let text = match utf8_str(pb.1.as_slice()) {
            None => {
                return Err(Error::FileNotUtf8 { path: pb.0.clone() });
            },
            Some(t) => t,
        };
        let chars = chars_of(text);
        match parse_i32_chars(&chars) {
            Some(v) => Ok(ExitCode(v)),
            None => Err(Error::FileNotInteger { path: pb.0.clone() }),
        }
    }

    /// Whether an expected-stdout fixture exists.
    pub fn has_stdout(&self) -> (r: bool)
        ensures
            r == (self.spec_stdout() is Some),
    {
        self.stdout.is_some()
    }

    /// The expected stdout bytes: the fixture's contents, or empty where no
    /// fixture exists.
    pub fn stdout(&self) -> (r: Result<Vec<u8>, Error>)
        ensures
            r matches Ok(v) && v@ == (match self.spec_stdout() {
                None => Seq::<u8>::empty(),
                Some((p, b)) => b,
            }),
    {
        match &self.stdout {
            None => Ok(Vec::new()),
            Some(pb) => Ok(slice_to_vec(pb.1.as_slice())),
        }
    }

    /// Whether an expected-stdout-pattern fixture exists.
    pub fn has_stdout_pat(&self) -> (r: bool)
        ensures
            r == (self.spec_stdout_pat() is Some),
    {
        self.stdout_pat.is_some()
    }

    /// The expected stdout pattern text: the fixture's contents, which must
    /// be UTF-8, or empty where no fixture exists.
    pub fn stdout_pat(&self) -> (r: Result<String, Error>)
        ensures
            match self.spec_stdout_pat() {
                None => r matches Ok(s) && s@ == Seq::<char>::empty(),
                Some((p, b)) => {
                    if valid_utf8(b) {
                        r matches Ok(s) && s@ == decode_utf8(b) && s@.len() <= b.len()
                    } else {
                        r matches Err(Error::FileNotUtf8 { path }) && path@ == p
                    }
                },
            },
    {
        match &self.stdout_pat {
            None => Ok(String::new()),
            Some(pb) => {
                match utf8_str(pb.1.as_slice()) {
                    None => Err(Error::FileNotUtf8 { path: pb.0.clone() }),
                    Some(t) => Ok(t.to_owned()),
                }
            },
        }
    }

    /// Whether an expected-stderr fixture exists.
    pub fn has_stderr(&self) -> (r: bool)
        ensures
            r == (self.spec_stderr() is Some),
    {
        self.stderr.is_some()
    }

    /// The expected stderr bytes: the fixture's contents, or empty where no
    /// fixture exists.
    pub fn stderr(&self) -> (r: Result<Vec<u8>, Error>)
        ensures
            r matches Ok(v) && v@ == (match self.spec_stderr() {
                None => Seq::<u8>::empty(),
                Some((p, b)) => b,
            }),
    {
        match &self.stderr {
            None => Ok(Vec::new()),
            Some(pb) => Ok(slice_to_vec(pb.1.as_slice())),
        }
    }

    /// The path of the script this command runs.
    pub fn cmd_path(&self) -> (r: &str)
        ensures
            r@ == self.spec_cmd_path(),
    {
        self.cmd_path.as_str()
    }
}

/// What a command run produced: its exit code and its captured streams.
pub struct CommandResult {
    exit_code: ExitCode,
    stdout: Vec<u8>,
    stderr: Vec<u8>,
}

impl CommandResult {
    pub closed spec fn spec_exit_code(&self) -> ExitCode {
        self.exit_code
    }

    pub closed spec fn spec_stdout(&self) -> Seq<u8> {
        self.stdout@
    }

    pub closed spec fn spec_stderr(&self) -> Seq<u8> {
        self.stderr@
    }

    pub fn new(exit_code: ExitCode, stdout: &[u8], stderr: &[u8]) -> (r: CommandResult)
        ensures
            r.spec_exit_code() == exit_code,
            r.spec_stdout() == stdout@,
            r.spec_stderr() == stderr@,
    {
        CommandResult { exit_code, stdout: slice_to_vec(stdout), stderr: slice_to_vec(stderr) }
    }

    pub fn exit_code(&self) -> (r: ExitCode)
        ensures
            r == self.spec_exit_code(),
    {
        self.exit_code
    }

    pub fn stdout(&self) -> (r: &[u8])
        ensures
            r@ == self.spec_stdout(),
    {
        self.stdout.as_slice()
    }

    pub fn stderr(&self) -> (r: &[u8])
        ensures
            r@ == self.spec_stderr(),
    {
        self.stderr.as_slice()
    }
}

/// Where the final component of a path begins: right after its last `/`.
pub open spec fn after_last_slash(s: Seq<char>) -> int
    decreases s.len(),
{
    if s.len() == 0 {
        0
    } else if s.last() == '/' {
        s.len() as int
    } else {
        after_last_slash(s.drop_last())
    }
}

/// The index of the last `.` of a path, or `-1` where none stands.
pub open spec fn last_dot(s: Seq<char>) -> int
    decreases s.len(),
{
    if s.len() == 0 {
        -1
    } else if s.last() == '.' {
        s.len() - 1
    } else {
        last_dot(s.drop_last())
    }
}

/// A path with its final component's extension replaced by `ext`, or with
/// `.ext` appended where the component has none. A leading dot alone — a
/// hidden file's — begins no extension.
pub open spec fn with_ext_spec(path: Seq<char>, ext: Seq<char>) -> Seq<char> {
    let ns = after_last_slash(path);
    let ld = last_dot(path);
    if ld > ns {
        path.take(ld) + seq!['.'] + ext
    } else {
        path + seq!['.'] + ext
    }
}

/// Replaces the extension of a path's final component by `ext`, or appends
/// `.ext` where the component has none, as std's `PathBuf::set_extension`
/// renames a sibling file. Whether such a file exists is the caller's
/// affair.
pub fn with_ext(path: &str, ext: &str) -> (r: String)
    ensures
        r@ == with_ext_spec(path@, ext@),
{
    let chars = chars_of(path);
    let len = chars.len();
    let mut ns: usize = 0;
    let mut has_dot = false;
    let mut ld: usize = 0;
    let mut i: usize = 0;
    while i < len
        invariant
            i <= len,
            len == chars@.len(),
            ns as int == after_last_slash(chars@.take(i as int)),
            (if has_dot {
                ld as int
            } else {
                -1
            }) == last_dot(chars@.take(i as int)),
            ns <= len,
            has_dot ==> ld < len,
        decreases len - i,
    {
        let c = chars[i];
        proof {
            assert(chars@.take(i + 1).drop_last() =~= chars@.take(i as int));
            assert(chars@.take(i + 1).last() == chars@[i as int]);
        }
        if c == '/' {
            ns = i + 1;
        }
        if c == '.' {
            ld = i;
            has_dot = true;
        }
        i = i + 1;
    }
    proof {
        assert(chars@.take(len as int) =~= chars@);
    }
    let mut r = if has_dot && ld > ns {
        string_of_range(&chars, 0, ld)
    } else {
        path.to_owned()
    };
    proof {
        assert(chars@.subrange(0, (if has_dot && ld > ns {
            ld as int
        } else {
            len as int
        })) =~= (if has_dot && ld > ns {
            chars@.take(ld as int)
        } else {
            chars@
        }));
    }
    push_char(&mut r, '.');
    let ghost mid = r@;
    r.append(ext);
    proof {
        let stem = if has_dot && ld > ns {
            chars@.take(ld as int)
        } else {
            chars@
        };
        assert(mid =~= stem + seq!['.']);
        assert(r@ =~= stem + seq!['.'] + ext@);
    }
    r
}

} // verus!
