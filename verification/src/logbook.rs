//! The log: the lines written so far, each of them once, in ascending
//! order.

use vstd::prelude::*;
use vstd::utf8::{encode_utf8, encode_utf8_decode_utf8};

verus! {

/// The text of each line.
pub open spec fn texts(lines: Seq<String>) -> Seq<Seq<char>> {
    Seq::new(lines.len(), |i: int| lines[i]@)
}

/// The two byte strings agree in their first `k` bytes, and then the first
/// one ends while the second goes on, or the first one has the smaller byte.
pub open spec fn parts_at(a: Seq<u8>, b: Seq<u8>, k: int) -> bool {
    &&& 0 <= k <= a.len()
    &&& k < b.len()
    &&& forall|j: int| 0 <= j < k ==> a[j] == b[j]
    &&& k < a.len() ==> a[k] < b[k]
}

/// The first byte string comes before the second, byte by byte: the order
/// in which strings are compared.
pub open spec fn bytes_lt(a: Seq<u8>, b: Seq<u8>) -> bool {
    exists|k: int| parts_at(a, b, k)
}

/// The first text comes before the second in the order of strings, which
/// goes by the bytes of their encoding.
pub open spec fn text_lt(a: Seq<char>, b: Seq<char>) -> bool {
    bytes_lt(encode_utf8(a), encode_utf8(b))
}

/// The texts stand in strictly ascending order, so that none stands twice.
pub open spec fn sorted(lines: Seq<Seq<char>>) -> bool {
    forall|i: int, j: int| 0 <= i < j < lines.len() ==> text_lt(lines[i], lines[j])
}

/// The log with one more line, in its place in the order, unless the log
/// holds the line already.
pub open spec fn with_line(lines: Seq<Seq<char>>, line: Seq<char>) -> Seq<Seq<char>>
    decreases lines.len(),
{
    if lines.len() == 0 {
        seq![line]
    } else if lines.last() == line {
        lines
    } else if text_lt(lines.last(), line) {
        lines.push(line)
    } else {
        with_line(lines.drop_last(), line).push(lines.last())
    }
}

/// The log after the lines of `more` have been written to it.
pub open spec fn with_lines(lines: Seq<Seq<char>>, more: Seq<Seq<char>>) -> Seq<Seq<char>>
    decreases more.len(),
{
    if more.len() == 0 {
        lines
    } else {
        with_line(with_lines(lines, more.drop_last()), more.last())
    }
}

/// The parts one after the other, with the separator between each two.
pub open spec fn joined(parts: Seq<Seq<char>>, separator: Seq<char>) -> Seq<char>
    decreases parts.len(),
{
    if parts.len() == 0 {
        Seq::empty()
    } else if parts.len() == 1 {
        parts[0]
    } else {
        joined(parts.drop_last(), separator) + separator + parts.last()
    }
}

/// No byte string comes before itself.
pub proof fn lemma_bytes_lt_irreflexive(a: Seq<u8>)
    ensures
        !bytes_lt(a, a),
{
}

/// What comes before something that comes before a third comes before the
/// third.
pub proof fn lemma_bytes_lt_transitive(a: Seq<u8>, b: Seq<u8>, c: Seq<u8>)
    requires
        bytes_lt(a, b),
        bytes_lt(b, c),
    ensures
        bytes_lt(a, c),
{
    let k1 = choose|k: int| parts_at(a, b, k);
    let k2 = choose|k: int| parts_at(b, c, k);
    if k1 <= k2 {
        assert(parts_at(a, c, k1));
    } else {
        assert(parts_at(a, c, k2));
    }
}

/// Of two byte strings that agree in their first `k` bytes one comes before
/// the other, or they are the same.
proof fn lemma_bytes_compared_from(a: Seq<u8>, b: Seq<u8>, k: int)
    requires
        0 <= k <= a.len(),
        k <= b.len(),
        forall|j: int| 0 <= j < k ==> a[j] == b[j],
    ensures
        a == b || bytes_lt(a, b) || bytes_lt(b, a),
    decreases a.len() - k,
{
    if k == a.len() && k == b.len() {
        assert(a =~= b);
    } else if k == a.len() {
        assert(parts_at(a, b, k));
    } else if k == b.len() {
        assert(parts_at(b, a, k));
    } else if a[k] < b[k] {
        assert(parts_at(a, b, k));
    } else if b[k] < a[k] {
        assert(parts_at(b, a, k));
    } else {
        lemma_bytes_compared_from(a, b, k + 1);
    }
}

/// The order of texts is a strict total order: no text comes before itself,
/// and of two different texts exactly one comes before the other.
pub proof fn lemma_text_order(a: Seq<char>, b: Seq<char>)
    ensures
        !text_lt(a, a),
        a == b || text_lt(a, b) || text_lt(b, a),
        !(text_lt(a, b) && text_lt(b, a)),
{
    lemma_bytes_lt_irreflexive(encode_utf8(a));
    lemma_bytes_compared_from(encode_utf8(a), encode_utf8(b), 0);
    if encode_utf8(a) == encode_utf8(b) {
        encode_utf8_decode_utf8(a);
        encode_utf8_decode_utf8(b);
    }
    if text_lt(a, b) && text_lt(b, a) {
        lemma_bytes_lt_transitive(encode_utf8(a), encode_utf8(b), encode_utf8(a));
    }
}

/// The order of texts is transitive.
pub proof fn lemma_text_lt_transitive(a: Seq<char>, b: Seq<char>, c: Seq<char>)
    requires
        text_lt(a, b),
        text_lt(b, c),
    ensures
        text_lt(a, c),
{
    lemma_bytes_lt_transitive(encode_utf8(a), encode_utf8(b), encode_utf8(c));
}

/// Writing a line to a log in ascending order leaves it in ascending order,
/// and the log then holds the lines it held and the line written, each
/// once.
pub proof fn lemma_with_line_sorted(lines: Seq<Seq<char>>, line: Seq<char>)
    requires
        sorted(lines),
    ensures
        sorted(with_line(lines, line)),
        forall|x: Seq<char>|
            with_line(lines, line).contains(x) <==> (lines.contains(x) || x == line),
    decreases lines.len(),
{
    let after = with_line(lines, line);
    if lines.len() == 0 {
        assert(after[0] == line);
        assert forall|x: Seq<char>| after.contains(x) <==> (lines.contains(x) || x == line) by {
            if after.contains(x) {
                let i = choose|i: int| 0 <= i < after.len() && after[i] == x;
            }
        }
    } else {
        let last = lines.last();
        let head = lines.drop_last();
        assert(lines =~= head.push(last));
        assert forall|x: Seq<char>| lines.contains(x) <==> (head.contains(x) || x == last) by {
            if lines.contains(x) {
                let i = choose|i: int| 0 <= i < lines.len() && lines[i] == x;
                if i < head.len() {
                    assert(head[i] == x);
                }
            }
            if head.contains(x) {
                let i = choose|i: int| 0 <= i < head.len() && head[i] == x;
                assert(lines[i] == x);
            }
            if x == last {
                assert(lines[lines.len() - 1] == x);
            }
        }
        if last == line {
        } else if text_lt(last, line) {
            assert forall|i: int, j: int| 0 <= i < j < after.len() implies text_lt(
                after[i],
                after[j],
            ) by {
                if j == lines.len() {
                    if i < lines.len() - 1 {
                        assert(text_lt(lines[i], lines[lines.len() - 1]));
                        lemma_text_lt_transitive(lines[i], last, line);
                    }
                } else {
                    assert(text_lt(lines[i], lines[j]));
                }
            }
            assert forall|x: Seq<char>|
                after.contains(x) <==> (lines.contains(x) || x == line) by {
                if after.contains(x) {
                    let i = choose|i: int| 0 <= i < after.len() && after[i] == x;
                    if i < lines.len() {
                        assert(lines[i] == x);
                    }
                }
                if lines.contains(x) {
                    let i = choose|i: int| 0 <= i < lines.len() && lines[i] == x;
                    assert(after[i] == x);
                }
                if x == line {
                    assert(after[lines.len() as int] == x);
                }
            }
        } else {
            assert(sorted(head)) by {
                assert forall|i: int, j: int| 0 <= i < j < head.len() implies text_lt(
                    head[i],
                    head[j],
                ) by {
                    assert(text_lt(lines[i], lines[j]));
                }
            }
            lemma_with_line_sorted(head, line);
            lemma_text_order(line, last);
            let inner = with_line(head, line);
            assert(after == inner.push(last));
            assert forall|i: int| 0 <= i < inner.len() implies text_lt(inner[i], last) by {
                assert(inner.contains(inner[i]));
                if head.contains(inner[i]) {
                    let k = choose|k: int| 0 <= k < head.len() && head[k] == inner[i];
                    assert(text_lt(lines[k], lines[lines.len() - 1]));
                }
            }
            assert forall|i: int, j: int| 0 <= i < j < after.len() implies text_lt(
                after[i],
                after[j],
            ) by {
                if j < inner.len() {
                    assert(text_lt(inner[i], inner[j]));
                }
            }
            assert forall|x: Seq<char>|
                after.contains(x) <==> (lines.contains(x) || x == line) by {
                assert(inner.contains(x) <==> (head.contains(x) || x == line));
                assert(lines.contains(x) <==> (head.contains(x) || x == last));
                if after.contains(x) {
                    let i = choose|i: int| 0 <= i < after.len() && after[i] == x;
                    if i < inner.len() {
                        assert(inner[i] == x);
                    }
                }
                if inner.contains(x) {
                    let i = choose|i: int| 0 <= i < inner.len() && inner[i] == x;
                    assert(after[i] == x);
                }
                if x == last {
                    assert(after[inner.len() as int] == x);
                }
            }
        }
    }
}

/// Writing lines to a log in ascending order leaves it in ascending order,
/// and the log then holds the lines it held and the lines written, each
/// once.
pub proof fn lemma_with_lines_sorted(lines: Seq<Seq<char>>, more: Seq<Seq<char>>)
    requires
        sorted(lines),
    ensures
        sorted(with_lines(lines, more)),
        forall|x: Seq<char>|
            with_lines(lines, more).contains(x) <==> (lines.contains(x) || more.contains(x)),
    decreases more.len(),
{
    if more.len() == 0 {
        assert forall|x: Seq<char>| !more.contains(x) by {
            if more.contains(x) {
                let i = choose|i: int| 0 <= i < more.len() && more[i] == x;
            }
        }
    } else {
        let head = more.drop_last();
        lemma_with_lines_sorted(lines, head);
        lemma_with_line_sorted(with_lines(lines, head), more.last());
        assert forall|x: Seq<char>|
            more.contains(x) <==> (head.contains(x) || x == more.last()) by {
            if more.contains(x) {
                let i = choose|i: int| 0 <= i < more.len() && more[i] == x;
                if i < head.len() {
                    assert(head[i] == x);
                }
            }
            if head.contains(x) {
                let i = choose|i: int| 0 <= i < head.len() && head[i] == x;
                assert(more[i] == x);
            }
            if x == more.last() {
                assert(more[more.len() - 1] == x);
            }
        }
    }
}

/// Where a line goes in a log in ascending order: behind the lines that
/// come before it, and, unless it stands there already, in front of the
/// first line that comes after it.
proof fn lemma_with_line_at(lines: Seq<Seq<char>>, line: Seq<char>, k: int)
    requires
        sorted(lines),
        0 <= k <= lines.len(),
        forall|i: int| 0 <= i < k ==> text_lt(lines[i], line),
        k < lines.len() ==> (lines[k] == line || text_lt(line, lines[k])),
    ensures
        with_line(lines, line) == (if k < lines.len() && lines[k] == line {
            lines
        } else {
            lines.insert(k, line)
        }),
    decreases lines.len(),
{
    if lines.len() == 0 {
        assert(seq![line] =~= lines.insert(0, line));
    } else {
        let last = lines.last();
        let head = lines.drop_last();
        lemma_text_order(last, line);
        if k == lines.len() {
            assert(text_lt(lines[lines.len() - 1], line));
            assert(lines.push(line) =~= lines.insert(k, line));
        } else {
            if k < lines.len() - 1 {
                assert(text_lt(lines[k], lines[lines.len() - 1]));
                if lines[k] != line {
                    lemma_text_lt_transitive(line, lines[k], last);
                }
            }
            if last != line {
                assert(text_lt(line, last));
                assert(sorted(head)) by {
                    assert forall|i: int, j: int| 0 <= i < j < head.len() implies text_lt(
                        head[i],
                        head[j],
                    ) by {
                        assert(text_lt(lines[i], lines[j]));
                    }
                }
                assert forall|i: int| 0 <= i < k implies text_lt(head[i], line) by {
                    assert(text_lt(lines[i], line));
                }
                if k < head.len() {
                    assert(head[k] == lines[k]);
                }
                lemma_with_line_at(head, line, k);
                if k < head.len() && head[k] == line {
                    assert(head.push(last) =~= lines);
                } else {
                    assert(head.insert(k, line).push(last) =~= lines.insert(k, line));
                }
            }
        }
    }
}

/// A log in ascending order with a line put where it goes is in ascending
/// order.
proof fn lemma_insert_sorted(lines: Seq<Seq<char>>, line: Seq<char>, k: int)
    requires
        sorted(lines),
        0 <= k <= lines.len(),
        forall|i: int| 0 <= i < k ==> text_lt(lines[i], line),
        k < lines.len() ==> text_lt(line, lines[k]),
    ensures
        sorted(lines.insert(k, line)),
{
    let after = lines.insert(k, line);
    assert forall|i: int, j: int| 0 <= i < j < after.len() implies text_lt(after[i], after[j]) by {
        if j < k {
            assert(text_lt(lines[i], lines[j]));
        } else if j == k {
            assert(text_lt(lines[i], line));
        } else if i == k {
            if j - 1 > k {
                assert(text_lt(lines[k], lines[j - 1]));
                lemma_text_lt_transitive(line, lines[k], lines[j - 1]);
            }
        } else if i < k {
            assert(text_lt(lines[i], line));
            if j - 1 > k {
                assert(text_lt(lines[k], lines[j - 1]));
                lemma_text_lt_transitive(line, lines[k], lines[j - 1]);
            }
            lemma_text_lt_transitive(lines[i], line, lines[j - 1]);
        } else {
            assert(text_lt(lines[i - 1], lines[j - 1]));
        }
    }
}

/// How two byte strings stand to each other.
enum Rank {
    Before,
    Same,
    After,
}

/// Compares two byte strings byte by byte.
fn rank(a: &[u8], b: &[u8]) -> (r: Rank)
    ensures
        match r {
            Rank::Before => bytes_lt(a@, b@),
            Rank::Same => a@ == b@,
            Rank::After => bytes_lt(b@, a@),
        },
{
    let mut k: usize = 0;
    while k < a.len() && k < b.len()
        invariant
            k <= a.len(),
            k <= b.len(),
            forall|j: int| 0 <= j < k ==> a[j] == b[j],
        decreases a.len() - k,
    {
        if a[k] < b[k] {
            assert(parts_at(a@, b@, k as int));
            return Rank::Before;
        }
        if b[k] < a[k] {
            assert(parts_at(b@, a@, k as int));
            return Rank::After;
        }
        k += 1;
    }
    if k < b.len() {
        assert(parts_at(a@, b@, k as int));
        Rank::Before
    } else if k < a.len() {
        assert(parts_at(b@, a@, k as int));
        Rank::After
    } else {
        assert(a@ =~= b@);
        Rank::Same
    }
}

/// The parts one after the other, with the separator between each two.
pub fn join(parts: &Vec<String>, separator: &str) -> (text: String)
    ensures
        text@ == joined(texts(parts@), separator@),
{
    let mut text = String::new();
    let mut at: usize = 0;
    while at < parts.len()
        invariant
            at <= parts.len(),
            text@ == joined(texts(parts@).take(at as int), separator@),
        decreases parts.len() - at,
    {
        let ghost head = texts(parts@).take(at as int);
        let ghost more = texts(parts@).take(at + 1);
        assert(more.drop_last() =~= head);
        assert(more.last() == parts[at as int]@);
        if at > 0 {
            text.append(separator);
        }
        text.append(parts[at].as_str());
        proof {
            if at == 0 {
                assert(text@ =~= more[0]);
            }
        }
        at += 1;
    }
    assert(texts(parts@).take(at as int) =~= texts(parts@));
    text
}

/// The lines of the log, each once, in ascending order: the order in which
/// strings are compared. A line that is written again is not taken in a
/// second time.
#[derive(Debug)]
pub struct LogBook {
    lines: Vec<String>,
}

impl View for LogBook {
    type V = Seq<Seq<char>>;

    /// The text of each line, in ascending order.
    closed spec fn view(&self) -> Seq<Seq<char>> {
        texts(self.lines@)
    }
}

impl LogBook {
    /// The log's invariant: its lines stand in strictly ascending order, and
    /// so no line stands in it twice.
    pub open spec fn wf(&self) -> bool {
        sorted(self@)
    }

    /// A log without lines.
    pub fn new() -> (book: Self)
        ensures
            book.wf(),
            book@ == Seq::<Seq<char>>::empty(),
    {
        let book = LogBook { lines: Vec::new() };
        assert(book@ =~= Seq::<Seq<char>>::empty());
        book
    }

    /// Whether the log holds this line.
    pub fn contains(&self, line: &String) -> (found: bool)
        ensures
            found == self@.contains(line@),
    {
        let mut at: usize = 0;
        while at < self.lines.len()
            invariant
                at <= self.lines.len(),
                forall|i: int| 0 <= i < at ==> self@[i] != line@,
            decreases self.lines.len() - at,
        {
            if self.lines[at] == *line {
                assert(self@[at as int] == line@);
                return true;
            }
            at += 1;
        }
        false
    }

    /// Writes a line in its place in the order, unless the log holds it
    /// already. Returns whether the line was new.
    pub fn insert(&mut self, line: String) -> (added: bool)
        requires
            old(self).wf(),
        ensures
            final(self).wf(),
            final(self)@ == with_line(old(self)@, line@),
            added == !old(self)@.contains(line@),
    {
        let ghost before = self@;
        let mut at: usize = 0;
        while at < self.lines.len()
            invariant
                self@ == before,
                sorted(before),
                at <= self.lines.len(),
                forall|i: int| 0 <= i < at ==> text_lt(before[i], line@),
            ensures
                at <= self.lines.len(),
                forall|i: int| 0 <= i < at ==> text_lt(before[i], line@),
                at < self.lines.len() ==> text_lt(line@, before[at as int]),
            decreases self.lines.len() - at,
        {
            match rank(self.lines[at].as_str().as_bytes(), line.as_str().as_bytes()) {
                Rank::Before => {
                    at += 1;
                },
                Rank::Same => {
                    proof {
                        encode_utf8_decode_utf8(before[at as int]);
                        encode_utf8_decode_utf8(line@);
                        assert(before[at as int] == line@);
                        lemma_with_line_at(before, line@, at as int);
                    }
                    return false;
                },
                Rank::After => {
                    break;
                },
            }
        }
        proof {
            lemma_with_line_at(before, line@, at as int);
            lemma_insert_sorted(before, line@, at as int);
            assert(!before.contains(line@)) by {
                if before.contains(line@) {
                    let i = choose|i: int| 0 <= i < before.len() && before[i] == line@;
                    lemma_text_order(line@, line@);
                    if i > at {
                        assert(text_lt(before[at as int], before[i]));
                    }
                    if at < before.len() {
                        lemma_text_order(line@, before[at as int]);
                    }
                }
            }
        }
        self.lines.insert(at, line);
        assert(self@ =~= before.insert(at as int, line@));
        true
    }

    /// Writes the lines of `more`, each in its place in the order, unless
    /// the log holds it already.
    pub fn extend(&mut self, more: Vec<String>)
        requires
            old(self).wf(),
        ensures
            final(self).wf(),
            final(self)@ == with_lines(old(self)@, texts(more@)),
    {
        let mut at: usize = 0;
        while at < more.len()
            invariant
                self.wf(),
                at <= more.len(),
                self@ == with_lines(old(self)@, texts(more@).take(at as int)),
            decreases more.len() - at,
        {
            assert(texts(more@).take(at + 1).drop_last() =~= texts(more@).take(at as int));
            assert(texts(more@).take(at + 1).last() == more[at as int]@);
            self.insert(more[at].clone());
            at += 1;
        }
        assert(texts(more@).take(at as int) =~= texts(more@));
    }

    /// Removes every line.
    pub fn clear(&mut self)
        ensures
            final(self).wf(),
            final(self)@ == Seq::<Seq<char>>::empty(),
    {
        self.lines.clear();
        assert(self@ =~= Seq::<Seq<char>>::empty());
    }

    /// The lines, in ascending order.
    pub fn lines(&self) -> (lines: Vec<String>)
        ensures
            texts(lines@) == self@,
    {
        let mut lines: Vec<String> = Vec::new();
        let mut at: usize = 0;
        while at < self.lines.len()
            invariant
                at <= self.lines.len(),
                lines.len() == at,
                forall|i: int| 0 <= i < at ==> lines[i]@ == self.lines[i]@,
            decreases self.lines.len() - at,
        {
            lines.push(self.lines[at].clone());
            at += 1;
        }
        assert(texts(lines@) =~= self@);
        lines
    }

    /// Takes every line out of the log, in ascending order, and leaves the
    /// log empty.
    pub fn take(&mut self) -> (lines: Vec<String>)
        ensures
            final(self).wf(),
            final(self)@ == Seq::<Seq<char>>::empty(),
            texts(lines@) == old(self)@,
    {
        let mut lines: Vec<String> = Vec::new();
        core::mem::swap(&mut lines, &mut self.lines);
        assert(self@ =~= Seq::<Seq<char>>::empty());
        lines
    }

    /// The content of the log file: the lines that the file held and the
    /// lines of the log, each line once, in ascending order, with a
    /// carriage return and a line feed between each two.
    pub fn file_text(existing: Vec<String>, logs: Vec<String>) -> (text: String)
        ensures
            text@ == joined(
                with_lines(with_lines(Seq::empty(), texts(existing@)), texts(logs@)),
                "\r\n"@,
            ),
    {
        let mut book = LogBook::new();
        book.extend(existing);
        book.extend(logs);
        join(&book.lines, "\r\n")
    }
}

impl Default for LogBook {
    fn default() -> (book: Self)
        ensures
            book.wf(),
            book@ == Seq::<Seq<char>>::empty(),
    {
        LogBook::new()
    }
}

/// The lines of a log file stand in ascending order, each once, and are the
/// lines that the file held and the lines of the log.
pub proof fn lemma_file_lines(existing: Seq<Seq<char>>, logs: Seq<Seq<char>>)
    ensures
        sorted(with_lines(with_lines(Seq::empty(), existing), logs)),
        forall|x: Seq<char>|
            with_lines(with_lines(Seq::empty(), existing), logs).contains(x) <==> (
            existing.contains(x) || logs.contains(x)),
{
    let none = Seq::<Seq<char>>::empty();
    lemma_with_lines_sorted(none, existing);
    lemma_with_lines_sorted(with_lines(none, existing), logs);
    assert forall|x: Seq<char>| !none.contains(x) by {
        if none.contains(x) {
            let i = choose|i: int| 0 <= i < none.len() && none[i] == x;
        }
    }
}

} // verus!
