//! Identifiers: the alphanumeric allow-list and the generator.

use crate::clock::now_nanos;
use vstd::prelude::*;

verus! {

/// Whether `c` is an ASCII letter or digit.
pub open spec fn is_alnum(c: char) -> bool {
    ||| '0' <= c <= '9'
    ||| 'a' <= c <= 'z'
    ||| 'A' <= c <= 'Z'
}

/// An id is safe when it is not empty and holds ASCII letters and digits only.
pub open spec fn safe_id(id: Seq<char>) -> bool {
    &&& id.len() > 0
    &&& forall|i: int| 0 <= i < id.len() ==> is_alnum(#[trigger] id[i])
}

pub fn is_alnum_char(c: char) -> (r: bool)
    ensures
        r == is_alnum(c),
{
    ('0' <= c && c <= '9') || ('a' <= c && c <= 'z') || ('A' <= c && c <= 'Z')
}

/// Tells whether `id` may be used as an identifier.
pub fn is_safe_id(id: &str) -> (r: bool)
    ensures
        r == safe_id(id@),
{
    let n: usize = id.unicode_len();
    if n == 0 {
        return false;
    }
    let mut i: usize = 0;
    while i < n
        invariant
            n == id@.len(),
            i <= n,
            forall|j: int| 0 <= j < i ==> is_alnum(#[trigger] id@[j]),
        decreases n - i,
    {
        let c: char = id.get_char(i);
        if !is_alnum_char(c) {
            return false;
        }
        i += 1;
    }
    true
}

/// The hexadecimal digit for `d`, lower case.
pub open spec fn hex_digit(d: int) -> char {
    if d == 0 {
        '0'
    } else if d == 1 {
        '1'
    } else if d == 2 {
        '2'
    } else if d == 3 {
        '3'
    } else if d == 4 {
        '4'
    } else if d == 5 {
        '5'
    } else if d == 6 {
        '6'
    } else if d == 7 {
        '7'
    } else if d == 8 {
        '8'
    } else if d == 9 {
        '9'
    } else if d == 10 {
        'a'
    } else if d == 11 {
        'b'
    } else if d == 12 {
        'c'
    } else if d == 13 {
        'd'
    } else if d == 14 {
        'e'
    } else {
        'f'
    }
}

/// `n` in hexadecimal, lower case, without leading zeros.
pub open spec fn hex(n: nat) -> Seq<char>
    decreases n,
{
    if n < 16 {
        seq![hex_digit(n as int)]
    } else {
        hex(n / 16).push(hex_digit((n % 16) as int))
    }
}

/// The letter that stands between the time and the process in an id.
pub const PROCESS_MARK: char = 'p';

/// The letter that stands between the process and the count in an id.
pub const COUNT_MARK: char = 'n';

/// Whether `c` is a hexadecimal digit, lower case.
pub open spec fn is_hex(c: char) -> bool {
    ||| '0' <= c <= '9'
    ||| 'a' <= c <= 'f'
}

/// The id made of a time, a process and a count: their hexadecimal forms,
/// with a `p` before the process and an `n` before the count. Neither
/// letter is a hexadecimal digit, so the three numbers can be read back.
pub open spec fn id_text(time: nat, process: nat, count: nat) -> Seq<char> {
    hex(time) + seq![PROCESS_MARK] + hex(process) + seq![COUNT_MARK] + hex(count)
}

/// A hexadecimal number holds hexadecimal digits only.
pub proof fn lemma_hex_digits(n: nat)
    ensures
        forall|i: int| 0 <= i < hex(n).len() ==> is_hex(#[trigger] hex(n)[i]),
    decreases n,
{
    if n >= 16 {
        lemma_hex_digits(n / 16);
    }
    assert forall|i: int| 0 <= i < hex(n).len() implies is_hex(#[trigger] hex(n)[i]) by {
        if n >= 16 {
            let head = hex(n / 16);
            if i < head.len() {
                assert(hex(n)[i] == head[i]);
            } else {
                assert(hex(n)[i] == hex_digit((n % 16) as int));
            }
        } else {
            assert(hex(n)[i] == hex_digit(n as int));
        }
    }
}

/// Two texts that are equal, each made of a head, a mark and a rest, have
/// equal heads and equal rests where the mark occurs in neither head.
pub proof fn lemma_split_at_mark(
    a1: Seq<char>,
    r1: Seq<char>,
    a2: Seq<char>,
    r2: Seq<char>,
    mark: char,
)
    requires
        a1 + seq![mark] + r1 == a2 + seq![mark] + r2,
        forall|i: int| 0 <= i < a1.len() ==> a1[i] != mark,
        forall|i: int| 0 <= i < a2.len() ==> a2[i] != mark,
    ensures
        a1 == a2,
        r1 == r2,
{
    let left = a1 + seq![mark] + r1;
    let right = a2 + seq![mark] + r2;
    let l1 = a1.len() as int;
    let l2 = a2.len() as int;
    if l1 < l2 {
        assert(left[l1] == mark);
        assert(right[l1] == a2[l1]);
        assert(false);
    }
    if l2 < l1 {
        assert(right[l2] == mark);
        assert(left[l2] == a1[l2]);
        assert(false);
    }
    assert(left.subrange(0, l1) =~= a1);
    assert(right.subrange(0, l1) =~= a2);
    assert(left.skip(l1 + 1) =~= r1);
    assert(right.skip(l1 + 1) =~= r2);
}

/// A hexadecimal number is not empty and holds letters and digits only.
pub proof fn lemma_hex_safe(n: nat)
    ensures
        safe_id(hex(n)),
    decreases n,
{
    if n >= 16 {
        lemma_hex_safe(n / 16);
    }
}

/// Every id that is generated is safe.
pub proof fn lemma_id_text_safe(time: nat, process: nat, count: nat)
    ensures
        safe_id(id_text(time, process, count)),
{
    lemma_hex_safe(time);
    lemma_hex_safe(process);
    lemma_hex_safe(count);
    let id = id_text(time, process, count);
    let a = hex(time).len() as int;
    let b = hex(process).len() as int;
    assert forall|i: int| 0 <= i < id.len() implies is_alnum(#[trigger] id[i]) by {
        if i < a {
            assert(id[i] == hex(time)[i]);
        } else if i == a {
            assert(id[i] == PROCESS_MARK);
        } else if i < a + 1 + b {
            assert(id[i] == hex(process)[i - a - 1]);
        } else if i == a + 1 + b {
            assert(id[i] == COUNT_MARK);
        } else {
            assert(id[i] == hex(count)[i - a - b - 2]);
        }
    }
}

/// Hexadecimal digits are equal only where their values are.
pub proof fn lemma_digit_injective(x: int, y: int)
    requires
        0 <= x < 16,
        0 <= y < 16,
        hex_digit(x) == hex_digit(y),
    ensures
        x == y,
{
}

/// Hexadecimal numbers are equal only where the numbers are.
pub proof fn lemma_hex_injective(a: nat, b: nat)
    requires
        hex(a) == hex(b),
    ensures
        a == b,
    decreases a,
{
    if a < 16 && b < 16 {
        assert(hex(a)[0] == hex_digit(a as int));
        assert(hex(b)[0] == hex_digit(b as int));
        lemma_digit_injective(a as int, b as int);
    } else if a >= 16 && b >= 16 {
        let x = hex(a / 16);
        let y = hex(b / 16);
        assert(x.push(hex_digit((a % 16) as int)).drop_last() =~= x);
        assert(y.push(hex_digit((b % 16) as int)).drop_last() =~= y);
        assert(x.push(hex_digit((a % 16) as int)).last() == hex_digit((a % 16) as int));
        assert(y.push(hex_digit((b % 16) as int)).last() == hex_digit((b % 16) as int));
        lemma_hex_injective(a / 16, b / 16);
        lemma_digit_injective((a % 16) as int, (b % 16) as int);
    } else if a >= 16 {
        lemma_hex_safe(a / 16);
        assert(hex(a).len() >= 2);
    } else {
        lemma_hex_safe(b / 16);
        assert(hex(b).len() >= 2);
    }
}

/// The time, the process and the count can be read back from an id: two
/// ids are equal only where all three are.
pub proof fn lemma_id_text_injective(time1: nat, proc1: nat, count1: nat, time2: nat, proc2: nat, count2: nat)
    requires
        id_text(time1, proc1, count1) == id_text(time2, proc2, count2),
    ensures
        time1 == time2,
        proc1 == proc2,
        count1 == count2,
{
    lemma_hex_digits(time1);
    lemma_hex_digits(time2);
    lemma_hex_digits(proc1);
    lemma_hex_digits(proc2);
    let rest1 = hex(proc1) + seq![COUNT_MARK] + hex(count1);
    let rest2 = hex(proc2) + seq![COUNT_MARK] + hex(count2);
    assert(id_text(time1, proc1, count1) =~= hex(time1) + seq![PROCESS_MARK] + rest1);
    assert(id_text(time2, proc2, count2) =~= hex(time2) + seq![PROCESS_MARK] + rest2);
    lemma_split_at_mark(hex(time1), rest1, hex(time2), rest2, PROCESS_MARK);
    lemma_split_at_mark(hex(proc1), hex(count1), hex(proc2), hex(count2), COUNT_MARK);
    lemma_hex_injective(time1, time2);
    lemma_hex_injective(proc1, proc2);
    lemma_hex_injective(count1, count2);
}

/// Ids are unique: two ids that were made at different times, by different
/// processes or under different counts differ, within one process and
/// across processes.
pub proof fn lemma_ids_differ(time1: nat, proc1: nat, count1: nat, time2: nat, proc2: nat, count2: nat)
    requires
        time1 != time2 || proc1 != proc2 || count1 != count2,
    ensures
        id_text(time1, proc1, count1) != id_text(time2, proc2, count2),
{
    if id_text(time1, proc1, count1) == id_text(time2, proc2, count2) {
        lemma_id_text_injective(time1, proc1, count1, time2, proc2, count2);
    }
}

/// The text of one hexadecimal digit.
fn digit_str(d: u8) -> (r: &'static str)
    requires
        d < 16,
    ensures
        r@ == seq![hex_digit(d as int)],
{
    proof {
        reveal_strlit("0");
        reveal_strlit("1");
        reveal_strlit("2");
        reveal_strlit("3");
        reveal_strlit("4");
        reveal_strlit("5");
        reveal_strlit("6");
        reveal_strlit("7");
        reveal_strlit("8");
        reveal_strlit("9");
        reveal_strlit("a");
        reveal_strlit("b");
        reveal_strlit("c");
        reveal_strlit("d");
        reveal_strlit("e");
        reveal_strlit("f");
    }
    let r = if d == 0 {
        "0"
    } else if d == 1 {
        "1"
    } else if d == 2 {
        "2"
    } else if d == 3 {
        "3"
    } else if d == 4 {
        "4"
    } else if d == 5 {
        "5"
    } else if d == 6 {
        "6"
    } else if d == 7 {
        "7"
    } else if d == 8 {
        "8"
    } else if d == 9 {
        "9"
    } else if d == 10 {
        "a"
    } else if d == 11 {
        "b"
    } else if d == 12 {
        "c"
    } else if d == 13 {
        "d"
    } else if d == 14 {
        "e"
    } else {
        "f"
    };
    assert(r@ =~= seq![hex_digit(d as int)]);
    r
}

/// Writes `n` in hexadecimal behind what `out` holds.
pub fn push_hex(out: &mut String, n: u128)
    ensures
        final(out)@ == old(out)@ + hex(n as nat),
    decreases n,
{
    if n >= 16 {
        push_hex(out, n / 16);
    }
    let d: u8 = (n % 16) as u8;
    out.append(digit_str(d));
    assert(out@ =~= old(out)@ + hex(n as nat));
}

/// The count that follows `count`: one more, and 0 after the largest.
pub open spec fn next_count(count: u64) -> u64 {
    if count == u64::MAX {
        0
    } else {
        (count + 1) as u64
    }
}

/// The source of the ids of one process: the identity of the process and a
/// count of the ids given out.
#[derive(Clone, Debug, PartialEq, Eq)]
pub struct IdSource {
    pub process: u32,
    pub count: u64,
}

impl IdSource {
    /// The source of a process that has given out no id yet.
    pub fn new(process: u32) -> (r: IdSource)
        ensures
            r.process == process,
            r.count == 0,
    {
        IdSource { process, count: 0 }
    }

    /// The id for the time `time`: the time, a `p`, the process, an `n` and
    /// the count, the numbers in hexadecimal. The count goes up by one, and
    /// starts again at 0 after the largest count.
    pub fn next_id(&mut self, time: u128) -> (id: String)
        ensures
            id@ == id_text(time as nat, old(self).process as nat, old(self).count as nat),
            safe_id(id@),
            final(self).process == old(self).process,
            final(self).count == next_count(old(self).count),
    {
        let mut id = String::new();
        push_hex(&mut id, time);
        id.append("p");
        push_hex(&mut id, self.process as u128);
        id.append("n");
        push_hex(&mut id, self.count as u128);
        proof {
            reveal_strlit("p");
            reveal_strlit("n");
            assert("p"@ =~= seq![PROCESS_MARK]);
            assert("n"@ =~= seq![COUNT_MARK]);
            lemma_id_text_safe(time as nat, self.process as nat, self.count as nat);
            assert(id@ =~= id_text(time as nat, self.process as nat, self.count as nat));
        }
        self.count = if self.count == u64::MAX {
            0
        } else {
            self.count + 1
        };
        id
    }

    /// A new id, made of the time of the clock, the process and the count.
    pub fn generate_id(&mut self) -> (id: String)
        ensures
            exists|time: nat|
                id@ == #[trigger] id_text(time, old(self).process as nat, old(self).count as nat),
            safe_id(id@),
            final(self).process == old(self).process,
            final(self).count == next_count(old(self).count),
    {
        let time = now_nanos();
        self.next_id(time)
    }
}

} // verus!
