use vstd::prelude::*;

verus! {

/// The severity of a log line.
#[derive(Debug, Clone, Copy, PartialEq, Eq, Structural)]
pub enum LogLevel {
    INFO,
    WARNING,
    ERROR,
    FATAL,
}

/// `n` spaces.
pub open spec fn spaces(n: int) -> Seq<char>
    decreases n,
{
    if n <= 0 {
        Seq::empty()
    } else {
        spaces(n - 1).push(' ')
    }
}

/// One column of a separated log line: a string at least `t` characters
/// long is cut to its first `t` characters and one trailing space; a
/// shorter one is padded with spaces up to `t + 1` characters.
pub open spec fn truncate_pad(s: Seq<char>, t: int) -> Seq<char> {
    if s.len() >= t {
        s.subrange(0, t) + seq![' ']
    } else {
        s + spaces(t - s.len() + 1)
    }
}

/// A separated log line: every value in its own column of width `t + 1`.
pub open spec fn log_line(values: Seq<Seq<char>>, t: int) -> Seq<char>
    decreases values.len(),
{
    if values.len() == 0 {
        Seq::empty()
    } else {
        log_line(values.drop_last(), t) + truncate_pad(values.last(), t)
    }
}

/// Formats several values as one aligned log record: each value is cut or
/// padded to a column `truncate_len + 1` characters wide, as [`log_line`]
/// says, and the line is handed back with its level for the caller's log
/// sink. Widths count characters, not bytes.
pub fn log_seperated(value: &Vec<String>, level: LogLevel, truncate_len: usize) -> (r: (
    LogLevel,
    String,
))
    requires
        truncate_len < usize::MAX,
    ensures
        r.0 == level,
        r.1@ == log_line(value@.map_values(|s: String| s@), truncate_len as int),
{
    let ghost vals = value@.map_values(|s: String| s@);
    let mut output = String::new();
    let n = value.len();
    for i in 0..n
        invariant
            truncate_len < usize::MAX,
            n == value@.len(),
            vals == value@.map_values(|s: String| s@),
            output@ == log_line(vals.take(i as int), truncate_len as int),
    {
        proof {
            assert(vals.take(i + 1).drop_last() =~= vals.take(i as int));
            assert(vals.take(i + 1).last() == vals[i as int]);
            assert(vals[i as int] == value@[i as int]@);
        }
        let s = &value[i];
        let chars = s.as_str().unicode_len();
        if chars >= truncate_len {
            let ghost pre = output@;
            output.append(s.as_str().substring_char(0, truncate_len));
            output.append(" ");
            proof {
                reveal_strlit(" ");
                assert(" "@ =~= seq![' ']);
                assert(output@ =~= pre + truncate_pad(vals[i as int], truncate_len as int));
            }
        } else {
            let ghost pre = output@;
            let ghost this = vals[i as int];
            output.append(s.as_str());
            let pad = truncate_len - chars;
            let mut j: usize = 0;
            while j <= pad
                invariant
                    j <= pad + 1,
                    pad < usize::MAX,
                    output@ == pre + this + spaces(j as int),
                decreases pad + 1 - j,
            {
                output.append(" ");
                proof {
                    reveal_strlit(" ");
                    assert(" "@ =~= seq![' ']);
                    assert((pre + this + spaces(j as int)) + seq![' '] =~= pre + this + spaces(
                        j + 1,
                    ));
                }
                j = j + 1;
            }
            proof {
                assert(j == pad + 1);
                assert(spaces(j as int) == spaces(truncate_len - chars as int + 1));
                assert(chars as int == this.len());
                assert(output@ =~= pre + truncate_pad(vals[i as int], truncate_len as int));
            }
        }
    }
    proof {
        assert(vals.take(n as int) =~= vals);
    }
    (level, output)
}

} // verus!
