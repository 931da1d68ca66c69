//! One partition of a topic, and the offsets between which it is read.

use vstd::prelude::*;
use vstd::string::StrSliceExecFns;

verus! {

/// A partition of a topic with the offsets at which reading starts and
/// stops.
#[derive(Clone, Debug, PartialEq, Hash)]
pub struct KafkaSplit {
    pub topic: String,
    pub partition: i32,
    pub start_offset: Option<i64>,
    pub stop_offset: Option<i64>,
}

/// The value of a decimal digit, or `None` for any other character.
pub open spec fn spec_digit(c: char) -> Option<nat> {
    if c == '0' {
        Some(0)
    } else if c == '1' {
        Some(1)
    } else if c == '2' {
        Some(2)
    } else if c == '3' {
        Some(3)
    } else if c == '4' {
        Some(4)
    } else if c == '5' {
        Some(5)
    } else if c == '6' {
        Some(6)
    } else if c == '7' {
        Some(7)
    } else if c == '8' {
        Some(8)
    } else if c == '9' {
        Some(9)
    } else {
        None
    }
}

/// Whether the text is made of decimal digits, and of at least one.
pub open spec fn spec_all_digits(text: Seq<char>) -> bool {
    text.len() > 0 && forall|i: int| 0 <= i < text.len() ==> spec_digit(#[trigger] text[i]) is Some
}

/// The number that digits spell.
pub open spec fn spec_digits_value(text: Seq<char>) -> nat
    decreases text.len(),
{
    if text.len() == 0 {
        0
    } else {
        spec_digits_value(text.drop_last()) * 10 + match spec_digit(text.last()) {
            Some(d) => d,
            None => 0,
        }
    }
}

/// The number that a text spells in decimal: an optional sign, then digits,
/// and nothing else; `None` where the text is not of that form or the number
/// does not fit.
pub open spec fn spec_parse_i64(text: Seq<char>) -> Option<i64> {
    if text.len() == 0 {
        None
    } else {
        let negative = text[0] == '-';
        let digits = if text[0] == '-' || text[0] == '+' {
            text.skip(1)
        } else {
            text
        };
        let value = spec_digits_value(digits);
        if !spec_all_digits(digits) {
            None
        } else if negative {
            if value <= 0x8000_0000_0000_0000 {
                Some((-value) as i64)
            } else {
                None
            }
        } else if value <= 0x7fff_ffff_ffff_ffff {
            Some(value as i64)
        } else {
            None
        }
    }
}

/// More digits do not spell a smaller number.
proof fn lemma_digits_value_grows(text: Seq<char>, k: int)
    requires
        0 <= k <= text.len(),
    ensures
        spec_digits_value(text.subrange(0, k)) <= spec_digits_value(text),
    decreases text.len() - k,
{
    if k == text.len() {
        assert(text.subrange(0, k) =~= text);
    } else {
        lemma_digits_value_grows(text, k + 1);
        assert(text.subrange(0, k + 1).drop_last() =~= text.subrange(0, k));
    }
}

/// The value of a decimal digit, or `None` for any other character.
fn digit(c: char) -> (r: Option<u64>)
    ensures
        match r {
            Some(d) => spec_digit(c) == Some(d as nat) && d <= 9,
            None => spec_digit(c) is None,
        },
{
    if c == '0' {
        Some(0)
    } else if c == '1' {
        Some(1)
    } else if c == '2' {
        Some(2)
    } else if c == '3' {
        Some(3)
    } else if c == '4' {
        Some(4)
    } else if c == '5' {
        Some(5)
    } else if c == '6' {
        Some(6)
    } else if c == '7' {
        Some(7)
    } else if c == '8' {
        Some(8)
    } else if c == '9' {
        Some(9)
    } else {
        None
    }
}

/// Reads a number in decimal.
pub fn parse_i64(text: &str) -> (r: Option<i64>)
    ensures
        r == spec_parse_i64(text@),
{
    let n = text.unicode_len();
    if n == 0 {
        return None;
    }
    let first = text.get_char(0);
    let negative = first == '-';
    let start: usize = if first == '-' || first == '+' {
        1
    } else {
        0
    };
    let ghost digits = if first == '-' || first == '+' {
        text@.skip(1)
    } else {
        text@
    };
    if start == n {
        return None;
    }
    let limit: u64 = if negative {
        0x8000_0000_0000_0000
    } else {
        0x7fff_ffff_ffff_ffff
    };
    let mut value: u64 = 0;
    let mut i: usize = start;
    proof {
        assert(digits.subrange(0, 0) =~= Seq::<char>::empty());
    }
    while i < n
        invariant
            start <= i <= n,
            n == text@.len(),
            n > 0,
            negative == (text@[0] == '-'),
            start == 1 <==> (text@[0] == '-' || text@[0] == '+'),
            digits == if text@[0] == '-' || text@[0] == '+' {
                text@.skip(1)
            } else {
                text@
            },
            digits.len() == n - start,
            limit == if negative {
                0x8000_0000_0000_0000u64
            } else {
                0x7fff_ffff_ffff_ffffu64
            },
            value == spec_digits_value(digits.subrange(0, i - start)),
            value <= limit,
            forall|k: int| 0 <= k < i - start ==> spec_digit(#[trigger] digits[k]) is Some,
        decreases n - i,
    {
        let c = text.get_char(i);
        assert(digits[i - start] == c);
        let d = match digit(c) {
            Some(d) => d,
            None => {
                assert(spec_digit(digits[i - start]) is None);
                return None;
            },
        };
        proof {
            assert(digits.subrange(0, i - start + 1).drop_last() =~= digits.subrange(
                0,
                i - start,
            ));
            assert(digits.subrange(0, i - start + 1).last() == c);
        }
        if value > (limit - d) / 10 {
            proof {
                lemma_digits_value_grows(digits, i - start + 1);
                assert(spec_digits_value(digits.subrange(0, i - start + 1)) == value * 10 + d);
            }
            return None;
        }
        value = value * 10 + d;
        i += 1;
    }
    assert(digits.subrange(0, i - start) =~= digits);
    if negative {
        if value == 0x8000_0000_0000_0000 {
            Some(-0x8000_0000_0000_0000)
        } else {
            Some(-(value as i64))
        }
    } else {
        Some(value as i64)
    }
}

impl KafkaSplit {
    pub fn new(
        partition: i32,
        start_offset: Option<i64>,
        stop_offset: Option<i64>,
        topic: String,
    ) -> (r: KafkaSplit)
        ensures
            r.topic == topic,
            r.partition == partition,
            r.start_offset == start_offset,
            r.stop_offset == stop_offset,
    {
        KafkaSplit { topic, partition, start_offset, stop_offset }
    }

    /// Sets the start offset to the number that `start_offset` spells.
    pub fn update_with_offset(&mut self, start_offset: String) -> (r: Result<(), ()>)
        requires
            spec_parse_i64(start_offset@) is Some,
        ensures
            r is Ok,
            final(self).start_offset == spec_parse_i64(start_offset@),
            final(self).topic == old(self).topic,
            final(self).partition == old(self).partition,
            final(self).stop_offset == old(self).stop_offset,
    {
        self.start_offset = Some(parse_i64(start_offset.as_str()).unwrap());
        Ok(())
    }

    /// Sets the start offset to the number that `start_offset` spells, and
    /// says whether it spells one. Where it spells none the split is left as
    /// it was.
    pub fn try_update_with_offset(&mut self, start_offset: String) -> (r: bool)
        ensures
            r == spec_parse_i64(start_offset@) is Some,
            r ==> final(self).start_offset == spec_parse_i64(start_offset@),
            !r ==> final(self).start_offset == old(self).start_offset,
            final(self).topic == old(self).topic,
            final(self).partition == old(self).partition,
            final(self).stop_offset == old(self).stop_offset,
    {
        match parse_i64(start_offset.as_str()) {
            Some(_) => {
                let _ = self.update_with_offset(start_offset);
                true
            },
            None => false,
        }
    }

    pub fn get_topic_and_partition(&self) -> (r: (String, i32))
        ensures
            r.0@ == self.topic@,
            r.1 == self.partition,
    {
        (self.topic.clone(), self.partition)
    }
}

} // verus!
