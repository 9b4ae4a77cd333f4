//! Notification rules and the application settings that carry them.
use vstd::prelude::*;
use vstd::string::*;

verus! {

/// A file rule: a path pattern, and optional patterns for the file's diff.
pub struct File {
    pub path: String,
    pub pattern: Option<Vec<String>>,
}

pub struct FileView {
    pub path: Seq<char>,
    pub pattern: Option<Seq<Seq<char>>>,
}

impl View for File {
    type V = FileView;

    open spec fn view(&self) -> FileView {
        FileView { path: self.path@, pattern: self.pattern.deep_view() }
    }
}

/// The views of a sequence of file rules.
pub open spec fn file_rule_views(fs: Seq<File>) -> Seq<FileView> {
    fs.map_values(|f: File| f@)
}

/// A watched repository, named by owner and name.
pub struct Repository {
    pub name: String,
    pub owner: String,
}

pub struct RepositoryView {
    pub name: Seq<char>,
    pub owner: Seq<char>,
}

impl View for Repository {
    type V = RepositoryView;

    open spec fn view(&self) -> RepositoryView {
        RepositoryView { name: self.name@, owner: self.owner@ }
    }
}

impl Clone for Repository {
    fn clone(&self) -> (r: Self)
        ensures
            r@ == self@,
    {
        Repository { name: self.name.clone(), owner: self.owner.clone() }
    }
}

/// A notification rule: the repository, its file rules in order, and the
/// optional repository-wide message patterns.
pub struct Notification {
    repository: Repository,
    files: Vec<File>,
    pattern: Option<Vec<String>>,
}

pub struct NotificationView {
    pub repository: RepositoryView,
    pub files: Seq<FileView>,
    pub pattern: Option<Seq<Seq<char>>>,
}

impl View for Notification {
    type V = NotificationView;

    closed spec fn view(&self) -> NotificationView {
        NotificationView {
            repository: self.repository@,
            files: file_rule_views(self.files@),
            pattern: self.pattern.deep_view(),
        }
    }
}

fn clone_patterns(p: &Option<Vec<String>>) -> (r: Option<Vec<String>>)
    ensures
        r.deep_view() == p.deep_view(),
{
    match p {
        Some(v) => {
            let c = v.clone();
            assert(c.deep_view() =~= v.deep_view());
            Some(c)
        },
        None => None,
    }
}

impl Notification {
    pub fn new(repository: Repository, files: Vec<File>, pattern: Option<Vec<String>>) -> (r: Self)
        ensures
            r@ == (NotificationView {
                repository: repository@,
                files: file_rule_views(files@),
                pattern: pattern.deep_view(),
            }),
    {
        Notification { repository, files, pattern }
    }

    /// The watched repository.
    pub fn repository(&self) -> (r: Repository)
        ensures
            r@ == self@.repository,
    {
        self.repository.clone()
    }

    /// The file rules, in order.
    pub fn files(&self) -> (r: &Vec<File>)
        ensures
            file_rule_views(r@) == self@.files,
    {
        &self.files
    }

    /// The repository-wide message patterns.
    pub fn patterns(&self) -> (r: Option<Vec<String>>)
        ensures
            r.deep_view() == self@.pattern,
    {
        clone_patterns(&self.pattern)
    }
}

pub open spec fn is_digit(c: char) -> bool {
    '0' <= c <= '9'
}

/// The value of a run of decimal digits.
pub open spec fn digits_value(d: Seq<char>) -> nat
    decreases d.len(),
{
    if d.len() == 0 {
        0
    } else {
        digits_value(d.drop_last()) * 10 + (d.last() as nat - '0' as nat) as nat
    }
}

/// The digits of a number written with an optional leading `+`.
pub open spec fn unsigned_digits(v: Seq<char>) -> Seq<char> {
    if v.len() > 0 && v[0] == '+' {
        v.drop_first()
    } else {
        v
    }
}

/// `v` is an unsigned decimal number: an optional `+`, then one or more digits.
pub open spec fn is_number(v: Seq<char>) -> bool {
    let d = unsigned_digits(v);
    d.len() > 0 && forall|i: int| 0 <= i < d.len() ==> is_digit(#[trigger] d[i])
}

/// Seconds per unit of an interval: `h` for hours, `m` for minutes; 0 for
/// any other unit.
pub open spec fn unit_seconds(u: char) -> nat {
    if u == 'h' {
        3600
    } else if u == 'm' {
        60
    } else {
        0
    }
}

/// The number written before the unit fits in a `u64`.
pub open spec fn number_fits(v: Seq<char>) -> bool {
    is_number(v) && digits_value(unsigned_digits(v)) <= u64::MAX
}

/// The seconds that an interval such as `30m` or `2h` stands for, when it is
/// valid and the result fits in a `u64`.
pub open spec fn interval_value(s: Seq<char>) -> Option<nat> {
    if s.len() == 0 {
        None
    } else {
        let v = s.drop_last();
        let secs = digits_value(unsigned_digits(v)) * unit_seconds(s.last());
        if number_fits(v) && unit_seconds(s.last()) > 0 && secs <= u64::MAX {
            Some(secs)
        } else {
            None
        }
    }
}

/// The message for an invalid interval `s`.
pub open spec fn interval_error(s: Seq<char>) -> Seq<char> {
    if s.len() == 0 {
        "Invalid numeric value in interval: "@
    } else if number_fits(s.drop_last()) && unit_seconds(s.last()) == 0 {
        "Invalid time unit: "@ + seq![s.last()] + ". Use 'h' for hours or 'm' for minutes."@
    } else {
        "Invalid numeric value in interval: "@ + s.drop_last()
    }
}

/// The seconds between two checks when the interval cannot be read.
pub const DEFAULT_INTERVAL_SECS: u64 = 60;

proof fn lemma_digits_value_grows(d: Seq<char>, i: int)
    requires
        0 <= i <= d.len(),
        forall|j: int| 0 <= j < d.len() ==> is_digit(#[trigger] d[j]),
    ensures
        digits_value(d.take(i)) <= digits_value(d),
    decreases d.len() - i,
{
    if i == d.len() {
        assert(d.take(i) =~= d);
    } else {
        lemma_digits_value_grows(d, i + 1);
        assert(d.take(i + 1).drop_last() =~= d.take(i));
        assert(d.take(i + 1).last() == d[i]);
        assert(is_digit(d[i]));
        let x = digits_value(d.take(i));
        let y = (d[i] as nat - '0' as nat) as nat;
        assert(x * 10 + y >= x) by (nonlinear_arith);
    }
}

fn numeric_error(value: &str) -> (r: String)
    ensures
        r@ == "Invalid numeric value in interval: "@ + value@,
{
    let mut r = String::from_str("Invalid numeric value in interval: ");
    r.append(value);
    r
}

/// Application settings: the check interval, the access token and the rules.
pub struct AppConfig {
    interval: Option<String>,
    github_token: String,
    notifications: Vec<Notification>,
}

impl AppConfig {
    pub closed spec fn spec_interval(&self) -> Option<Seq<char>> {
        self.interval.deep_view()
    }

    pub closed spec fn spec_token(&self) -> Seq<char> {
        self.github_token@
    }

    pub closed spec fn spec_notifications(&self) -> Seq<Notification> {
        self.notifications@
    }

    pub fn new(interval: Option<String>, github_token: String, notifications: Vec<Notification>) -> (r:
        Self)
        ensures
            r.spec_interval() == interval.deep_view(),
            r.spec_token() == github_token@,
            r.spec_notifications() == notifications@,
    {
        AppConfig { interval, github_token, notifications }
    }

    /// Reads an interval such as `30m` or `2h` as seconds.
    pub fn parse_interval(&self, interval_str: &str) -> (r: Result<u64, String>)
        ensures
            interval_value(interval_str@) is Some ==> r == Ok::<u64, String>(
                interval_value(interval_str@)->Some_0 as u64,
            ),
            interval_value(interval_str@) is None ==> r is Err && r->Err_0@ == interval_error(
                interval_str@,
            ),
    {
        let ghost s = interval_str@;
        let n = interval_str.unicode_len();
        if n == 0 {
            let r = numeric_error("");
            proof {
                reveal_strlit("");
                assert(r@ =~= "Invalid numeric value in interval: "@);
            }
            return Err(r);
        }
        let value = interval_str.substring_char(0, n - 1);
        let unit = interval_str.get_char(n - 1);
        let ghost v = s.drop_last();
        assert(value@ =~= v);
        let vn = value.unicode_len();
        let mut start: usize = 0;
        if vn > 0 && value.get_char(0) == '+' {
            start = 1;
        }
        let ghost d = unsigned_digits(v);
        assert(d =~= v.subrange(start as int, v.len() as int));
        if start == vn {
            return Err(numeric_error(value));
        }
        let mut acc: u64 = 0;
        let mut i: usize = start;
        while i < vn
            invariant
                start <= i <= vn,
                vn == v.len(),
                value@ == v,
                d == v.subrange(start as int, v.len() as int),
                d == unsigned_digits(v),
                v == s.drop_last(),
                s == interval_str@,
                n == s.len(),
                n > 0,
                forall|j: int| 0 <= j < i - start ==> is_digit(#[trigger] d[j]),
                acc == digits_value(d.take(i - start)),
            decreases vn - i,
        {
            let c = value.get_char(i);
            if !('0' <= c && c <= '9') {
                assert(d[i - start] == c);

                return Err(numeric_error(value));
            }
            let digit = (c as u32 - '0' as u32) as u64;
            assert(d.take(i + 1 - start).drop_last() =~= d.take(i - start));
            assert(d.take(i + 1 - start).last() == c);
            if acc > (u64::MAX - digit) / 10 {
                proof {
                    assert(forall|j: int| 0 <= j < i + 1 - start ==> is_digit(#[trigger] d[j]));
                    if is_number(v) {
                        lemma_digits_value_grows(d, i + 1 - start);
                    }
                    assert(digits_value(d.take(i + 1 - start)) > u64::MAX) by (nonlinear_arith)
                        requires
                            digits_value(d.take(i + 1 - start)) == acc * 10 + digit,
                            acc > (u64::MAX - digit) / 10,
                            digit <= 9,
                    ;
                }
                return Err(numeric_error(value));
            }
            acc = acc * 10 + digit;
            i = i + 1;
        }
        assert(d.take(vn - start) =~= d);
        let factor: u64 = if unit == 'h' {
            3600
        } else if unit == 'm' {
            60
        } else {
            0
        };
        if factor == 0 {
            let mut r = String::from_str("Invalid time unit: ");
            let unit_text = interval_str.substring_char(n - 1, n);
            assert(unit_text@ =~= seq![unit]);
            r.append(unit_text);
            r.append(". Use 'h' for hours or 'm' for minutes.");
            return Err(r);
        }
        match acc.checked_mul(factor) {
            Some(secs) => Ok(secs),
            None => Err(numeric_error(value)),
        }
    }

    /// The seconds between two checks: `None` when the settings ask for a
    /// single check, the default when the interval cannot be read.
    pub fn interval(&self) -> (r: Option<u64>)
        ensures
            self.spec_interval() is None ==> r is None,
            self.spec_interval() is Some ==> r == Some(
                match interval_value(self.spec_interval()->Some_0) {
                    Some(secs) => secs as u64,
                    None => DEFAULT_INTERVAL_SECS,
                },
            ),
    {
        match &self.interval {
            Some(text) => match self.parse_interval(text.as_str()) {
                Ok(secs) => Some(secs),
                Err(_) => Some(DEFAULT_INTERVAL_SECS),
            },
            None => None,
        }
    }

    /// The configured interval text, as written in the settings.
    pub fn interval_setting(&self) -> (r: &Option<String>)
        ensures
            r.deep_view() == self.spec_interval(),
    {
        &self.interval
    }

    /// The access token.
    pub fn token(&self) -> (r: &String)
        ensures
            r@ == self.spec_token(),
    {
        &self.github_token
    }

    /// The notification rules.
    pub fn notifications(&self) -> (r: &Vec<Notification>)
        ensures
            r@ == self.spec_notifications(),
    {
        &self.notifications
    }
}

impl Default for AppConfig {
    /// Settings for a single check, with a placeholder token and no rules.
    fn default() -> (r: Self)
        ensures
            r.spec_interval() is None,
            r.spec_token() == "GITHUB_TOKEN"@,
            r.spec_notifications() == Seq::<Notification>::empty(),
    {
        let r = AppConfig {
            interval: None,
            github_token: String::from_str("GITHUB_TOKEN"),
            notifications: Vec::new(),
        };
        assert(r.notifications@ =~= Seq::<Notification>::empty());
        r
    }
}

/// Hours, minutes and seconds of a span of `secs` seconds.
pub fn clock_parts(secs: u64) -> (r: (u64, u64, u64))
    ensures
        r.0 == secs / 3600,
        r.1 == (secs % 3600) / 60,
        r.2 == secs % 60,
        r.0 * 3600 + r.1 * 60 + r.2 == secs,
{
    let r = (secs / 3600, (secs % 3600) / 60, secs % 60);
    assert(r.0 * 3600 + r.1 * 60 + r.2 == secs) by (nonlinear_arith)
        requires
            r.0 == secs / 3600,
            r.1 == (secs % 3600) / 60,
            r.2 == secs % 60,
    ;
    r
}

} // verus!
