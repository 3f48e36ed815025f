use vstd::prelude::*;

verus! {

/// Whether `c` is an ASCII decimal digit.
pub open spec fn is_digit(c: char) -> bool {
    48 <= c as int <= 57
}

/// The numeric value of the digit `c`.
pub open spec fn digit_val(c: char) -> int {
    c as int - 48
}

/// Whether every character of `s` is an ASCII decimal digit.
pub open spec fn all_digits(s: Seq<char>) -> bool {
    forall|i: int| 0 <= i < s.len() ==> is_digit(#[trigger] s[i])
}

/// The value of a digit string read in base ten.
pub open spec fn digits_val(s: Seq<char>) -> int
    decreases s.len(),
{
    if s.len() == 0 {
        0
    } else {
        digits_val(s.drop_last()) * 10 + digit_val(s.last())
    }
}

/// Whether `s` starts with a minus sign.
pub open spec fn has_minus_sign(s: Seq<char>) -> bool {
    s.len() > 0 && s[0] == '-'
}

/// The digits of an integer literal: everything after an optional leading
/// sign.
pub open spec fn literal_digits(s: Seq<char>) -> Seq<char> {
    if s.len() > 0 && (s[0] == '+' || s[0] == '-') {
        s.drop_first()
    } else {
        s
    }
}

/// The signed value an integer literal denotes.
pub open spec fn literal_value(s: Seq<char>) -> int {
    if has_minus_sign(s) {
        -digits_val(literal_digits(s))
    } else {
        digits_val(literal_digits(s))
    }
}

/// Whether `s` is an integer literal that `i32` can hold: an optional sign,
/// then one or more digits and nothing else, with the value in range.
pub open spec fn is_i32_literal(s: Seq<char>) -> bool {
    &&& literal_digits(s).len() > 0
    &&& all_digits(literal_digits(s))
    &&& i32::MIN <= literal_value(s) <= i32::MAX
}

/// What parsing `s` as an `i32` yields.
pub open spec fn spec_parse_i32(s: Seq<char>) -> Option<i32> {
    if is_i32_literal(s) {
        Some(literal_value(s) as i32)
    } else {
        None
    }
}

/// A digit string has a non-negative value.
proof fn lemma_digits_val_nonneg(s: Seq<char>)
    requires
        all_digits(s),
    ensures
        digits_val(s) >= 0,
    decreases s.len(),
{
    if s.len() > 0 {
        assert(all_digits(s.drop_last()));
        lemma_digits_val_nonneg(s.drop_last());
    }
}

/// Reading more digits never decreases the value.
proof fn lemma_digits_val_mono(s: Seq<char>, k: int)
    requires
        all_digits(s),
        0 <= k <= s.len(),
    ensures
        digits_val(s.take(k)) <= digits_val(s),
    decreases s.len(),
{
    if k == s.len() {
        assert(s.take(k) =~= s);
    } else {
        assert(all_digits(s.drop_last()));
        lemma_digits_val_nonneg(s.drop_last());
        lemma_digits_val_mono(s.drop_last(), k);
        assert(s.take(k) =~= s.drop_last().take(k));
    }
}

/// Parses `s` as an `i32`, exactly as `spec_parse_i32` describes: an
/// optional sign, then one or more digits and nothing else, rejected when
/// out of range.
pub fn parse_i32(s: &str) -> (r: Option<i32>)
    ensures
        r == spec_parse_i32(s@),
{
    let n = s.unicode_len();
    if n == 0 {
        return None;
    }
    let first = s.get_char(0);
    let neg = first == '-';
    let has_sign = neg || first == '+';
    let start: usize = if has_sign {
        1
    } else {
        0
    };
    let ghost body = literal_digits(s@);
    proof {
        assert(body =~= s@.skip(start as int));
    }
    if start == n {
        return None;
    }
    let limit: u64 = if neg {
        0x8000_0000
    } else {
        0x7FFF_FFFF
    };
    let mut acc: u64 = 0;
    let mut j: usize = start;
    proof {
        assert(body.take(0) =~= Seq::<char>::empty());
    }
    while j < n
        invariant
            start <= j <= n,
            n == s@.len(),
            body == literal_digits(s@),
            body == s@.skip(start as int),
            body.len() == n - start,
            forall|i: int| 0 <= i < j - start ==> is_digit(#[trigger] body[i]),
            acc as int == digits_val(body.take(j - start)),
            acc <= limit,
            limit == (if neg {
                0x8000_0000u64
            } else {
                0x7FFF_FFFFu64
            }),
            neg == has_minus_sign(s@),
        decreases n - j,
    {
        let c = s.get_char(j);
        let cv = c as u32;
        proof {
            assert(c as int == cv as int);
            assert(body[j - start] == s@[j as int]);
        }
        if cv < 48 || cv > 57 {
            proof {
                assert(!is_digit(body[j - start]));
                assert(!all_digits(body));
                assert(!is_i32_literal(s@));
            }
            return None;
        }
        let d: u64 = (cv - 48) as u64;
        let next = acc * 10 + d;
        if next > limit {
            proof {
                assert(digit_val(body[j - start]) == d as int);
                assert(body.take(j - start + 1).drop_last() =~= body.take(j - start));
                assert(body.take(j - start + 1).last() == body[j - start]);
                assert(digits_val(body.take(j - start + 1)) == next as int);
                if all_digits(body) {
                    lemma_digits_val_mono(body, j - start + 1);
                    assert(digits_val(body) >= next as int);
                    assert(!(i32::MIN <= literal_value(s@) <= i32::MAX));
                    assert(!is_i32_literal(s@));
                } else {
                    assert(!is_i32_literal(s@));
                }
            }
            return None;
        }
        acc = next;
        proof {
            assert(body.take(j - start + 1).drop_last() =~= body.take(j - start));
            assert(body.take(j - start + 1).last() == body[j - start]);
        }
        j = j + 1;
    }
    proof {
        assert(body.take((n - start) as int) =~= body);
        assert(all_digits(body));
        lemma_digits_val_nonneg(body);
        assert(is_i32_literal(s@));
    }
    if neg {
        if acc == 0x8000_0000 {
            Some(i32::MIN)
        } else {
            Some(-(acc as i32))
        }
    } else {
        Some(acc as i32)
    }
}

/// Whether `sub` occurs contiguously anywhere in `s`.
pub open spec fn has_substring(s: Seq<char>, sub: Seq<char>) -> bool {
    exists|i: int| 0 <= i <= s.len() - sub.len() && #[trigger] s.subrange(i, i + sub.len()) == sub
}

/// Decides `has_substring` by direct scan.
pub fn contains_str(s: &str, sub: &str) -> (r: bool)
    ensures
        r == has_substring(s@, sub@),
{
    let n = s.unicode_len();
    let m = sub.unicode_len();
    if m > n {
        return false;
    }
    if m == 0 {
        proof {
            assert(s@.subrange(0, 0 + sub@.len() as int) =~= sub@);
            assert(has_substring(s@, sub@));
        }
        return true;
    }
    let mut i: usize = 0;
    while i <= n - m
        invariant
            0 < m <= n,
            n == s@.len(),
            m == sub@.len(),
            i <= n - m + 1,
            forall|i2: int|
                0 <= i2 < i ==> #[trigger] s@.subrange(i2, i2 + sub@.len()) != sub@,
        decreases n - i,
    {
        let mut j: usize = 0;
        let mut matches_here = true;
        while j < m
            invariant
                0 < m <= n,
                n == s@.len(),
                m == sub@.len(),
                i <= n - m,
                j <= m,
                matches_here ==> forall|j2: int| 0 <= j2 < j ==> s@[i + j2] == sub@[j2],
                !matches_here ==> s@.subrange(i as int, i + sub@.len()) != sub@,
            decreases m - j,
        {
            if s.get_char(i + j) != sub.get_char(j) {
                proof {
                    assert(s@.subrange(i as int, i + sub@.len())[j as int] == s@[i + j]);
                }
                matches_here = false;
                j = m;
            } else {
                j = j + 1;
            }
        }
        if matches_here {
            proof {
                assert(s@.subrange(i as int, i + sub@.len()) =~= sub@);
                assert(has_substring(s@, sub@));
            }
            return true;
        }
        i = i + 1;
    }
    false
}

/// The errors of configuration building: the arguments did not suffice, or
/// the first argument asked for the usage text.
#[derive(Clone, Copy, Debug, PartialEq, Eq)]
pub enum ConfigError {
    NotEnoughArguments,
    HelpRequested,
}

/// The recognized environment toggles, as the caller read them: presence of
/// each boolean toggle, and the raw text of each numeric one.
pub struct EnvToggles {
    pub ignore_case: bool,
    pub non_match: bool,
    pub directory: bool,
    pub inside: bool,
    pub threads: bool,
    pub depth: Option<String>,
    pub num_of_threads: Option<String>,
}

/// What an optional numeric toggle parses to.
pub open spec fn parsed_setting(o: Option<String>) -> Option<i32> {
    match o {
        Some(d) => spec_parse_i32(d@),
        None => None,
    }
}

/// The immutable settings of one run: the query pattern, the target path,
/// and the independent mode switches.
#[derive(Clone, Debug)]
pub struct Config {
    pub query: String,
    pub file_path: String,
    pub ignore_case: bool,
    pub non_match: bool,
    pub directory: bool,
    pub inside: bool,
    pub depth: Option<i32>,
    pub threads: bool,
    pub num_of_threads: Option<i32>,
}

/// The directory-walk depth bound of a run: the configured depth with
/// negatives clamped to zero, or 1 when none was configured.
pub open spec fn spec_effective_depth(depth: Option<i32>) -> int {
    match depth {
        Some(d) => if d < 0 {
            0
        } else {
            d as int
        },
        None => 1,
    }
}

/// The worker-pool size of a run: the configured count with values below
/// one clamped to one, or 6 when none was configured.
pub open spec fn spec_effective_threads(num: Option<i32>) -> int {
    match num {
        Some(t) => if t < 1 {
            1
        } else {
            t as int
        },
        None => 6,
    }
}

impl Config {
    /// Whether a built configuration carries exactly the given arguments
    /// and toggles: the query is the first argument, the target path is the
    /// first argument in directory mode and the second otherwise, and each
    /// switch comes from its toggle.
    pub open spec fn built_from(self, args: Seq<Seq<char>>, env: EnvToggles) -> bool {
        &&& self.query@ == args[1]
        &&& self.file_path@ == (if env.directory {
            args[1]
        } else {
            args[2]
        })
        &&& self.ignore_case == env.ignore_case
        &&& self.non_match == env.non_match
        &&& self.directory == env.directory
        &&& self.inside == env.inside
        &&& self.threads == env.threads
        &&& self.depth == parsed_setting(env.depth)
        &&& self.num_of_threads == parsed_setting(env.num_of_threads)
    }

    /// Builds the settings of one run from the positional arguments and the
    /// environment toggles. Succeeds exactly when enough arguments are
    /// there: two in directory mode, three otherwise (the program name
    /// counts as the first). With too few, a first argument holding
    /// "help---" asks for the usage text; anything else is a plain
    /// configuration error.
    pub fn build(args: &Vec<String>, env: &EnvToggles) -> (r: Result<Config, ConfigError>)
        ensures
            r is Ok <==> (args@.len() >= 2 && (env.directory || args@.len() >= 3)),
            r is Ok ==> r->Ok_0.built_from(args.deep_view(), *env),
            r is Err && args@.len() < 2 ==> r->Err_0 == ConfigError::NotEnoughArguments,
            r is Err && args@.len() >= 2 ==> (r->Err_0 == ConfigError::HelpRequested
                <==> has_substring(args@[1]@, "help---"@)),
    {
        if args.len() < 2 {
            return Err(ConfigError::NotEnoughArguments);
        }
        let depth: Option<i32> = match &env.depth {
            Some(d) => parse_i32(d.as_str()),
            None => None,
        };
        let num_of_threads: Option<i32> = match &env.num_of_threads {
            Some(t) => parse_i32(t.as_str()),
            None => None,
        };
        let query = args[1].clone();
        if env.directory {
            let file_path = args[1].clone();
            Ok(
                Config {
                    query,
                    file_path,
                    ignore_case: env.ignore_case,
                    non_match: env.non_match,
                    directory: env.directory,
                    inside: env.inside,
                    depth,
                    threads: env.threads,
                    num_of_threads,
                },
            )
        } else {
            if args.len() < 3 {
                if contains_str(args[1].as_str(), "help---") {
                    return Err(ConfigError::HelpRequested);
                } else {
                    return Err(ConfigError::NotEnoughArguments);
                }
            }
            let file_path = args[2].clone();
            Ok(
                Config {
                    query,
                    file_path,
                    ignore_case: env.ignore_case,
                    non_match: env.non_match,
                    directory: env.directory,
                    inside: env.inside,
                    depth,
                    threads: env.threads,
                    num_of_threads,
                },
            )
        }
    }

    /// The directory-walk depth bound of this run: the configured depth
    /// with negatives clamped to zero, or 1 when none was configured.
    pub fn effective_depth(&self) -> (r: usize)
        ensures
            r as int == spec_effective_depth(self.depth),
    {
        match self.depth {
            Some(d) => if d < 0 {
                0
            } else {
                d as usize
            },
            None => 1,
        }
    }

    /// The worker-pool size of this run: the configured count with values
    /// below one clamped to one, or 6 when none was configured.
    pub fn effective_threads(&self) -> (r: usize)
        ensures
            r as int == spec_effective_threads(self.num_of_threads),
    {
        match self.num_of_threads {
            Some(t) => if t < 1 {
                1
            } else {
                t as usize
            },
            None => 6,
        }
    }
}

} // verus!
