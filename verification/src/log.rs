use vstd::prelude::*;

use crate::err::LogError;
use vstd::string::StringExecFns;

verus! {

/// The base directory used when a caller names none.
pub open spec fn default_base_path() -> Seq<char> {
    seq!['/', 't', 'm', 'p']
}

/// The decimal digit characters.
pub open spec fn digit_char(d: int) -> char {
    if d == 0 {
        '0'
    } else if d == 1 {
        '1'
    } else if d == 2 {
        '2'
    } else if d == 3 {
        '3'
    } else if d == 4 {
        '4'
    } else if d == 5 {
        '5'
    } else if d == 6 {
        '6'
    } else if d == 7 {
        '7'
    } else if d == 8 {
        '8'
    } else {
        '9'
    }
}

/// Ten to the `k`-th power.
pub open spec fn pow10(k: nat) -> int
    decreases k,
{
    if k == 0 {
        1
    } else {
        10 * pow10((k - 1) as nat)
    }
}

/// `n` written as exactly eight decimal digits, zero-padded on the left.
pub open spec fn zero_pad8(n: int) -> Seq<char> {
    Seq::new(8, |i: int| digit_char((n / pow10((7 - i) as nat)) % 10))
}

/// The identity of one segment file: everything needed to resolve the
/// directory and file that hold a (topic, partition, segment) triple.
pub struct MsgLog {
    topic: String,
    partition: u16,
    segment: u16,
    base_path: String,
}

/// The directory of a segment identity:
/// `{base_path}/{topic}/{partition zero-padded to 8 digits}`.
pub open spec fn dir_path_chars(l: MsgLog) -> Seq<char> {
    l.base_path_spec() + seq!['/'] + l.topic_spec() + seq!['/'] + zero_pad8(
        l.partition_spec() as int,
    )
}

/// The file of a segment identity: its directory followed by
/// `/{segment zero-padded to 8 digits}.log`.
pub open spec fn file_path_chars(l: MsgLog) -> Seq<char> {
    dir_path_chars(l) + seq!['/'] + zero_pad8(l.segment_spec() as int) + seq!['.', 'l', 'o', 'g']
}

/// Ten to the `k`-th power, computed.
fn pow10_u32(k: u32) -> (r: u32)
    requires
        k <= 7,
    ensures
        r == pow10(k as nat),
        r >= 1,
{
    proof {
        reveal_with_fuel(pow10, 9);
    }
    match k {
        0 => 1,
        1 => 10,
        2 => 100,
        3 => 1_000,
        4 => 10_000,
        5 => 100_000,
        6 => 1_000_000,
        _ => 10_000_000,
    }
}

/// Pushes the character of one decimal digit.
fn append_digit(s: &mut String, d: u32)
    requires
        d < 10,
    ensures
        final(s)@ == old(s)@ + seq![digit_char(d as int)],
{
    if d == 0 {
        s.append("0");
        proof {
            reveal_strlit("0");
            assert(s@ =~= old(s)@ + seq![digit_char(d as int)]);
        }
    } else if d == 1 {
        s.append("1");
        proof {
            reveal_strlit("1");
            assert(s@ =~= old(s)@ + seq![digit_char(d as int)]);
        }
    } else if d == 2 {
        s.append("2");
        proof {
            reveal_strlit("2");
            assert(s@ =~= old(s)@ + seq![digit_char(d as int)]);
        }
    } else if d == 3 {
        s.append("3");
        proof {
            reveal_strlit("3");
            assert(s@ =~= old(s)@ + seq![digit_char(d as int)]);
        }
    } else if d == 4 {
        s.append("4");
        proof {
            reveal_strlit("4");
            assert(s@ =~= old(s)@ + seq![digit_char(d as int)]);
        }
    } else if d == 5 {
        s.append("5");
        proof {
            reveal_strlit("5");
            assert(s@ =~= old(s)@ + seq![digit_char(d as int)]);
        }
    } else if d == 6 {
        s.append("6");
        proof {
            reveal_strlit("6");
            assert(s@ =~= old(s)@ + seq![digit_char(d as int)]);
        }
    } else if d == 7 {
        s.append("7");
        proof {
            reveal_strlit("7");
            assert(s@ =~= old(s)@ + seq![digit_char(d as int)]);
        }
    } else if d == 8 {
        s.append("8");
        proof {
            reveal_strlit("8");
            assert(s@ =~= old(s)@ + seq![digit_char(d as int)]);
        }
    } else {
        s.append("9");
        proof {
            reveal_strlit("9");
            assert(s@ =~= old(s)@ + seq![digit_char(d as int)]);
        }
    }
}

/// Pushes `n` as exactly eight zero-padded decimal digits.
fn append_padded(s: &mut String, n: u16)
    ensures
        final(s)@ == old(s)@ + zero_pad8(n as int),
{
    let pad = Ghost(zero_pad8(n as int));
    let mut i: usize = 0;
    while i < 8
        invariant
            i <= 8,
            pad@ == zero_pad8(n as int),
            pad@.len() == 8,
            s@ == old(s)@ + pad@.subrange(0, i as int),
        decreases 8 - i,
    {
        let divisor = pow10_u32(7 - i as u32);
        let d: u32 = ((n as u32) / divisor) % 10;
        append_digit(s, d);
        proof {
            assert(digit_char(d as int) == pad@[i as int]);
            assert(pad@.subrange(0, i + 1) =~= pad@.subrange(0, i as int) + seq![pad@[i as int]]);
        }
        i = i + 1;
    }
    proof {
        assert(pad@.subrange(0, 8) =~= pad@);
    }
}

impl MsgLog {
    /// The base directory this identity resolves under.
    pub closed spec fn base_path_spec(&self) -> Seq<char> {
        self.base_path@
    }

    /// The topic this identity belongs to.
    pub closed spec fn topic_spec(&self) -> Seq<char> {
        self.topic@
    }

    /// The partition number of this identity.
    pub closed spec fn partition_spec(&self) -> u16 {
        self.partition
    }

    /// The segment number of this identity.
    pub closed spec fn segment_spec(&self) -> u16 {
        self.segment
    }

    /// Builds a segment identity; a missing base directory falls back to the
    /// fixed default.
    pub fn new(basedir: Option<String>, topic: String, partition: u16, segment: u16) -> (r: Self)
        ensures
            basedir matches Some(b) ==> r.base_path_spec() == b@,
            basedir is None ==> r.base_path_spec() == default_base_path(),
            r.topic_spec() == topic@,
            r.partition_spec() == partition,
            r.segment_spec() == segment,
    {
        let base_path = match basedir {
            Some(b) => b,
            None => {
                let d = String::from_str("/tmp");
                proof {
                    reveal_strlit("/tmp");
                    assert(d@ =~= default_base_path());
                }
                d
            },
        };
        MsgLog { base_path, topic, partition, segment }
    }

    /// The directory that holds this identity's segment files.
    pub fn get_path(&self) -> (r: String)
        ensures
            r@ == dir_path_chars(*self),
    {
        let mut s = String::new();
        s.append(self.base_path.as_str());
        s.append("/");
        s.append(self.topic.as_str());
        s.append("/");
        append_padded(&mut s, self.partition);
        proof {
            reveal_strlit("/");
            assert(s@ =~= dir_path_chars(*self));
        }
        s
    }

    /// The full path of this identity's segment file.
    pub fn get_file(&self) -> (r: String)
        ensures
            r@ == file_path_chars(*self),
    {
        let mut s = self.get_path();
        s.append("/");
        append_padded(&mut s, self.segment);
        s.append(".log");
        proof {
            reveal_strlit("/");
            reveal_strlit(".log");
            assert(s@ =~= file_path_chars(*self));
        }
        s
    }

    /// The creation guard's decision: given whether the segment file already
    /// exists and how long it is, creating anew is allowed exactly when no
    /// populated file would be clobbered. An existing zero-length file is
    /// treated as not yet written and is no error.
    pub fn create_new_check(&self, file_exists: bool, file_len: u64) -> (r: Result<(), LogError>)
        ensures
            r is Ok <==> !(file_exists && file_len > 0),
            r matches Err(e) ==> e == LogError::SegmentAlreadyExists,
    {
        if file_exists && file_len > 0 {
            Err(LogError::SegmentAlreadyExists)
        } else {
            Ok(())
        }
    }
}

/// A lowercase hexadecimal digit.
pub open spec fn is_lower_hex_digit(c: char) -> bool {
    ('0' <= c && c <= '9') || ('a' <= c && c <= 'f')
}

/// Relies on `uuid::Uuid::new_v4` and its `Simple` display form: a fresh
/// version-4 identifier rendered as exactly 32 lowercase hexadecimal digits,
/// with no separators. Nothing is assumed about which identifier comes back.
#[verifier::external_body]
pub fn new_id() -> (r: Result<String, LogError>)
    ensures
        r is Ok,
        r matches Ok(s) ==> s@.len() == 32 && forall|i: int|
            0 <= i < 32 ==> is_lower_hex_digit(s@[i]),
{
    Ok(uuid::Uuid::new_v4().simple().to_string())
}

} // verus!
