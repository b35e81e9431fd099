//! ANSI-escape-aware text compression.
//!
//! Rendered widget output may embed ANSI escape sequences (`ESC [ params
//! letter`). Compositing overlays such text at arbitrary offsets, so a line
//! is first *compressed*: split into its visible characters and, for each
//! visible position, the escape run anchored just before it (plus one
//! trailing slot for a run at the very end of the line). Rebuilding from the
//! compressed form reproduces the original line exactly.

use vstd::prelude::*;

verus! {

/// A parameter character inside an escape sequence: a decimal digit or `;`.
pub open spec fn is_param_char(c: char) -> bool {
    c == ';' || ('0' as u32 <= c as u32 && c as u32 <= '9' as u32)
}

/// The final character of an escape sequence: an ASCII letter.
pub open spec fn is_final_char(c: char) -> bool {
    ('a' as u32 <= c as u32 && c as u32 <= 'z' as u32) || ('A' as u32 <= c as u32 && c as u32
        <= 'Z' as u32)
}

/// Length of the run of parameter characters starting at index `i`.
pub open spec fn param_run_len(s: Seq<char>, i: int) -> nat
    decreases s.len() - i,
{
    if 0 <= i && i < s.len() && is_param_char(s[i]) {
        1 + param_run_len(s, i + 1)
    } else {
        0
    }
}

/// A complete escape sequence `ESC [ params letter` starts at index `i`.
pub open spec fn has_esc_at(s: Seq<char>, i: int) -> bool {
    let j = i + 2 + param_run_len(s, i + 2);
    &&& 0 <= i
    &&& i + 2 <= s.len()
    &&& s[i] == '\x1b'
    &&& s[i + 1] == '['
    &&& j < s.len()
    &&& is_final_char(s[j])
}

/// Length of the escape sequence starting at index `i` (meaningful only
/// when `has_esc_at(s, i)` holds).
pub open spec fn esc_len(s: Seq<char>, i: int) -> int {
    3 + param_run_len(s, i + 2) as int
}

/// The ghost image of a compressed line: the visible characters, and for
/// each visible position (plus one trailing slot) the escape text replayed
/// just before that position when the line is rebuilt.
pub struct CompressedSpec {
    pub plain: Seq<char>,
    pub escapes: Seq<Seq<char>>,
}

impl CompressedSpec {
    /// One escape slot per visible character, and one trailing slot.
    pub open spec fn wf(self) -> bool {
        self.escapes.len() == self.plain.len() + 1
    }
}

/// Compression of the suffix of `s` that starts at index `i`.
pub open spec fn compress_rec(s: Seq<char>, i: int) -> CompressedSpec
    decreases s.len() - i,
{
    if i < 0 || i >= s.len() {
        CompressedSpec { plain: Seq::empty(), escapes: seq![Seq::<char>::empty()] }
    } else if has_esc_at(s, i) {
        let k = esc_len(s, i);
        let rest = compress_rec(s, i + k);
        CompressedSpec {
            plain: rest.plain,
            escapes: rest.escapes.update(0, s.subrange(i, i + k) + rest.escapes[0]),
        }
    } else {
        let rest = compress_rec(s, i + 1);
        CompressedSpec {
            plain: seq![s[i]] + rest.plain,
            escapes: seq![Seq::<char>::empty()] + rest.escapes,
        }
    }
}

/// What compressing a whole line yields.
pub open spec fn compress_spec(s: Seq<char>) -> CompressedSpec {
    compress_rec(s, 0)
}

pub proof fn lemma_compress_rec_wf(s: Seq<char>, i: int)
    ensures
        compress_rec(s, i).wf(),
    decreases s.len() - i,
{
    if i < 0 || i >= s.len() {
    } else if has_esc_at(s, i) {
        lemma_compress_rec_wf(s, i + esc_len(s, i));
    } else {
        lemma_compress_rec_wf(s, i + 1);
    }
}

/// Rebuilds the original line from its compressed form: each escape run is
/// replayed just before the visible character it was anchored to, and the
/// trailing slot is replayed at the end.
pub open spec fn decompress_spec(c: CompressedSpec) -> Seq<char>
    decreases c.plain.len(),
{
    if c.plain.len() == 0 {
        if c.escapes.len() > 0 {
            c.escapes[0]
        } else {
            Seq::empty()
        }
    } else {
        c.escapes[0] + seq![c.plain[0]] + decompress_spec(
            CompressedSpec { plain: c.plain.skip(1), escapes: c.escapes.skip(1) },
        )
    }
}

proof fn lemma_decompress_prepend(c: CompressedSpec, e: Seq<char>)
    requires
        c.wf(),
    ensures
        decompress_spec(
            CompressedSpec { plain: c.plain, escapes: c.escapes.update(0, e + c.escapes[0]) },
        ) == e + decompress_spec(c),
{
    let c2 = CompressedSpec { plain: c.plain, escapes: c.escapes.update(0, e + c.escapes[0]) };
    if c.plain.len() == 0 {
        assert(decompress_spec(c2) == c2.escapes[0]);
    } else {
        assert(c2.plain.skip(1) == c.plain.skip(1));
        assert(c2.escapes.skip(1) =~= c.escapes.skip(1));
        assert(decompress_spec(c2) == (e + c.escapes[0]) + seq![c.plain[0]] + decompress_spec(
            CompressedSpec { plain: c.plain.skip(1), escapes: c.escapes.skip(1) },
        ));
        assert((e + c.escapes[0]) + seq![c.plain[0]] =~= e + (c.escapes[0] + seq![c.plain[0]]));
    }
}

proof fn lemma_compress_rec_round_trip(s: Seq<char>, i: int)
    requires
        0 <= i <= s.len(),
    ensures
        decompress_spec(compress_rec(s, i)) == s.skip(i),
    decreases s.len() - i,
{
    if i >= s.len() {
        assert(s.skip(i) =~= Seq::<char>::empty());
    } else if has_esc_at(s, i) {
        let k = esc_len(s, i);
        let rest = compress_rec(s, i + k);
        lemma_compress_rec_round_trip(s, i + k);
        lemma_compress_rec_wf(s, i + k);
        lemma_decompress_prepend(rest, s.subrange(i, i + k));
        assert(s.subrange(i, i + k) + s.skip(i + k) =~= s.skip(i));
    } else {
        let rest = compress_rec(s, i + 1);
        lemma_compress_rec_round_trip(s, i + 1);
        lemma_compress_rec_wf(s, i + 1);
        let c = compress_rec(s, i);
        assert(c.plain.len() > 0);
        assert(c.plain.skip(1) =~= rest.plain);
        assert(c.escapes.skip(1) =~= rest.escapes);
        assert(c.escapes[0] == Seq::<char>::empty());
        assert(decompress_spec(c) == c.escapes[0] + seq![c.plain[0]] + decompress_spec(rest));
        assert(Seq::<char>::empty() + seq![s[i]] + s.skip(i + 1) =~= s.skip(i));
    }
}

/// Round-trip law: rebuilding from the compressed form reproduces the
/// original string exactly, for any interleaving of escape sequences and
/// visible characters.
pub proof fn lemma_compress_round_trip(s: Seq<char>)
    ensures
        decompress_spec(compress_spec(s)) == s,
{
    lemma_compress_rec_round_trip(s, 0);
    assert(s.skip(0) == s);
}

/// The view of an escape table held as a vector of character vectors.
pub open spec fn escapes_view(e: Seq<Vec<char>>) -> Seq<Seq<char>> {
    Seq::new(e.len(), |i: int| e[i]@)
}

/// A compressed line: the visible characters and, for each visible position
/// plus one trailing slot, the escape run anchored there (empty when none).
pub struct Compressed {
    pub plain: Vec<char>,
    pub escapes: Vec<Vec<char>>,
}

impl View for Compressed {
    type V = CompressedSpec;

    open spec fn view(&self) -> CompressedSpec {
        CompressedSpec { plain: self.plain@, escapes: escapes_view(self.escapes@) }
    }
}

/// Joining two compressed fragments: the trailing escape slot of the first
/// fuses with the leading slot of the second.
pub open spec fn append_compressed(a: CompressedSpec, b: CompressedSpec) -> CompressedSpec {
    let n = a.plain.len() as int;
    CompressedSpec {
        plain: a.plain + b.plain,
        escapes: a.escapes.take(n) + seq![a.escapes[n] + b.escapes[0]] + b.escapes.skip(1),
    }
}

proof fn lemma_append_empty_left(c: CompressedSpec)
    requires
        c.wf(),
    ensures
        append_compressed(
            CompressedSpec { plain: Seq::empty(), escapes: seq![Seq::<char>::empty()] },
            c,
        ) == c,
{
    let a = CompressedSpec { plain: Seq::<char>::empty(), escapes: seq![Seq::<char>::empty()] };
    assert(append_compressed(a, c).plain =~= c.plain);
    assert(append_compressed(a, c).escapes =~~= c.escapes);
}

proof fn lemma_append_empty_right(c: CompressedSpec)
    requires
        c.wf(),
    ensures
        append_compressed(
            c,
            CompressedSpec { plain: Seq::empty(), escapes: seq![Seq::<char>::empty()] },
        ) == c,
{
    let b = CompressedSpec { plain: Seq::<char>::empty(), escapes: seq![Seq::<char>::empty()] };
    assert(append_compressed(c, b).plain =~= c.plain);
    assert(append_compressed(c, b).escapes =~~= c.escapes);
}

/// The characters of `s`, in order.
pub fn str_chars(s: &str) -> (r: Vec<char>)
    ensures
        r@ == s@,
{
    let n: usize = s.unicode_len();
    let mut r: Vec<char> = Vec::new();
    let mut i: usize = 0;
    while i < n
        invariant
            i <= n,
            n == s@.len(),
            r@ == s@.take(i as int),
        decreases n - i,
    {
        r.push(s.get_char(i));
        i += 1;
        proof {
            assert(r@ =~= s@.take(i as int));
        }
    }
    proof {
        assert(s@.take(n as int) =~= s@);
    }
    r
}

fn is_param(c: char) -> (r: bool)
    ensures
        r == is_param_char(c),
{
    c == ';' || ('0' as u32 <= c as u32 && c as u32 <= '9' as u32)
}

fn is_final(c: char) -> (r: bool)
    ensures
        r == is_final_char(c),
{
    ('a' as u32 <= c as u32 && c as u32 <= 'z' as u32) || ('A' as u32 <= c as u32 && c as u32
        <= 'Z' as u32)
}

proof fn lemma_param_run(s: Seq<char>, a: int, b: int)
    requires
        0 <= a <= b <= s.len(),
        forall|t: int| a <= t < b ==> is_param_char(s[t]),
        b == s.len() || !is_param_char(s[b]),
    ensures
        param_run_len(s, a) == b - a,
    decreases b - a,
{
    if a < b {
        lemma_param_run(s, a + 1, b);
    }
}

/// Looks for a complete escape sequence at index `i`; returns its length.
fn find_esc(cs: &Vec<char>, i: usize) -> (r: Option<usize>)
    requires
        (i as int) < cs@.len(),
    ensures
        match r {
            Some(k) => has_esc_at(cs@, i as int) && k as int == esc_len(cs@, i as int) && i + k
                <= cs@.len(),
            None => !has_esc_at(cs@, i as int),
        },
{
    let n: usize = cs.len();
    if cs[i] != '\x1b' {
        return None;
    }
    if i + 1 >= n || cs[i + 1] != '[' {
        return None;
    }
    let mut j: usize = i + 2;
    while j < cs.len() && is_param(cs[j])
        invariant
            i + 2 <= j <= cs@.len(),
            forall|t: int| i + 2 <= t < j ==> is_param_char(cs@[t]),
        decreases cs@.len() - j,
    {
        j += 1;
    }
    proof {
        lemma_param_run(cs@, i + 2, j as int);
    }
    if j < cs.len() && is_final(cs[j]) {
        Some(j + 1 - i)
    } else {
        None
    }
}

/// Copies `cs[a..b]`.
fn copy_range(cs: &Vec<char>, a: usize, b: usize) -> (r: Vec<char>)
    requires
        a <= b <= cs@.len(),
    ensures
        r@ == cs@.subrange(a as int, b as int),
{
    let mut r: Vec<char> = Vec::new();
    let mut t: usize = a;
    while t < b
        invariant
            a <= t <= b <= cs@.len(),
            r@ == cs@.subrange(a as int, t as int),
        decreases b - t,
    {
        r.push(cs[t]);
        t += 1;
        proof {
            assert(r@ =~= cs@.subrange(a as int, t as int));
        }
    }
    r
}

proof fn lemma_step_esc(cur: CompressedSpec, s: Seq<char>, i: int)
    requires
        cur.wf(),
        0 <= i < s.len(),
        has_esc_at(s, i),
        i + esc_len(s, i) <= s.len(),
    ensures
        ({
            let k = esc_len(s, i);
            let n = cur.plain.len() as int;
            let cur2 = CompressedSpec {
                plain: cur.plain,
                escapes: cur.escapes.update(n, cur.escapes[n] + s.subrange(i, i + k)),
            };
            append_compressed(cur2, compress_rec(s, i + k)) == append_compressed(
                cur,
                compress_rec(s, i),
            )
        }),
{
    let k = esc_len(s, i);
    let n = cur.plain.len() as int;
    let e = s.subrange(i, i + k);
    let rest = compress_rec(s, i + k);
    lemma_compress_rec_wf(s, i + k);
    let c = compress_rec(s, i);
    let cur2 = CompressedSpec {
        plain: cur.plain,
        escapes: cur.escapes.update(n, cur.escapes[n] + e),
    };
    assert(c.plain == rest.plain);
    assert(c.escapes == rest.escapes.update(0, e + rest.escapes[0]));
    assert(append_compressed(cur2, rest).plain == append_compressed(cur, c).plain);
    assert(cur2.escapes.take(n) =~~= cur.escapes.take(n));
    assert((cur.escapes[n] + e) + rest.escapes[0] =~= cur.escapes[n] + (e + rest.escapes[0]));
    assert(c.escapes.skip(1) =~~= rest.escapes.skip(1));
    assert(append_compressed(cur2, rest).escapes =~~= append_compressed(cur, c).escapes);
}

proof fn lemma_step_plain(cur: CompressedSpec, s: Seq<char>, i: int)
    requires
        cur.wf(),
        0 <= i < s.len(),
        !has_esc_at(s, i),
    ensures
        ({
            let cur2 = CompressedSpec {
                plain: cur.plain.push(s[i]),
                escapes: cur.escapes.push(Seq::<char>::empty()),
            };
            append_compressed(cur2, compress_rec(s, i + 1)) == append_compressed(
                cur,
                compress_rec(s, i),
            )
        }),
{
    let rest = compress_rec(s, i + 1);
    lemma_compress_rec_wf(s, i + 1);
    let c = compress_rec(s, i);
    let n = cur.plain.len() as int;
    let cur2 = CompressedSpec {
        plain: cur.plain.push(s[i]),
        escapes: cur.escapes.push(Seq::<char>::empty()),
    };
    assert(c.plain == seq![s[i]] + rest.plain);
    assert(c.escapes == seq![Seq::<char>::empty()] + rest.escapes);
    assert(append_compressed(cur2, rest).plain =~= append_compressed(cur, c).plain);
    assert(c.escapes[0] == Seq::<char>::empty());
    assert(cur.escapes[n] + c.escapes[0] =~= cur.escapes[n]);
    assert(append_compressed(cur2, rest).escapes =~~= append_compressed(cur, c).escapes);
}

/// Strips the escape runs out of `cs`: the visible characters come back in
/// `plain`, and each escape run is recorded at the visible position it
/// immediately precedes.
pub fn compress_chars(cs: &Vec<char>) -> (r: Compressed)
    ensures
        r@ == compress_spec(cs@),
        r@.wf(),
{
    let mut plain: Vec<char> = Vec::new();
    let mut escapes: Vec<Vec<char>> = Vec::new();
    escapes.push(Vec::new());
    let mut i: usize = 0;
    proof {
        lemma_compress_rec_wf(cs@, 0);
        lemma_append_empty_left(compress_rec(cs@, 0));
        assert(escapes_view(escapes@) =~~= seq![Seq::<char>::empty()]);
    }
    while i < cs.len()
        invariant
            i <= cs@.len(),
            escapes@.len() == plain@.len() + 1,
            append_compressed(
                CompressedSpec { plain: plain@, escapes: escapes_view(escapes@) },
                compress_rec(cs@, i as int),
            ) == compress_spec(cs@),
        decreases cs@.len() - i,
    {
        let ghost cur = CompressedSpec { plain: plain@, escapes: escapes_view(escapes@) };
        match find_esc(cs, i) {
            Some(k) => {
                let mut run = copy_range(cs, i, i + k);
                let mut lastv = escapes.pop().unwrap();
                lastv.append(&mut run);
                escapes.push(lastv);
                proof {
                    let n = cur.plain.len() as int;
                    assert(escapes_view(escapes@) =~~= cur.escapes.update(
                        n,
                        cur.escapes[n] + cs@.subrange(i as int, i + k),
                    ));
                    lemma_step_esc(cur, cs@, i as int);
                }
                i = i + k;
            },
            None => {
                plain.push(cs[i]);
                escapes.push(Vec::new());
                proof {
                    assert(plain@ == cur.plain.push(cs@[i as int]));
                    assert(escapes_view(escapes@) =~~= cur.escapes.push(Seq::<char>::empty()));
                    lemma_step_plain(cur, cs@, i as int);
                }
                i = i + 1;
            },
        }
    }
    let r = Compressed { plain, escapes };
    proof {
        assert(compress_rec(cs@, i as int) == CompressedSpec {
            plain: Seq::<char>::empty(),
            escapes: seq![Seq::<char>::empty()],
        });
        lemma_append_empty_right(r@);
        assert(r@ == compress_spec(cs@));
        lemma_compress_rec_wf(cs@, 0);
    }
    r
}

/// Compresses a line given as a string: the plain visible text plus the
/// table of escape runs by visible position.
pub fn compress_string(input: &str) -> (r: Compressed)
    ensures
        r@ == compress_spec(input@),
        r@.wf(),
{
    let cs = str_chars(input);
    compress_chars(&cs)
}

} // verus!
