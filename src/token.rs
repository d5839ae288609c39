//! The `output:spec` tokens that declare which workspace numbers belong to an
//! output: `N`, `N,M,...`, or an inclusive range `A-B`, and lists of these.
use vstd::prelude::*;
use crate::model::{first_where, lemma_first_where_found};
use crate::text::{chars_of, int_error_text, parse_i32, parse_i32_spec, push_str, string_of, IntError};

verus! {

/// The index of the first occurrence of `c` in `s`.
pub open spec fn first_index(s: Seq<char>, c: char) -> Option<nat>
    decreases s.len(),
{
    if s.len() == 0 {
        None
    } else if s[0] == c {
        Some(0)
    } else {
        match first_index(s.drop_first(), c) {
            Some(k) => Some(k + 1),
            None => None,
        }
    }
}

/// The pieces of `s` between occurrences of `c` (as many as occurrences plus one).
pub open spec fn split_on(s: Seq<char>, c: char) -> Seq<Seq<char>>
    decreases s.len(),
{
    if s.len() == 0 {
        seq![Seq::<char>::empty()]
    } else {
        let r = split_on(s.drop_last(), c);
        if s.last() == c {
            r.push(Seq::<char>::empty())
        } else {
            r.update(r.len() - 1, r.last().push(s.last()))
        }
    }
}

/// The inclusive range between two numbers, given in either order.
pub open spec fn range_set(a: int, b: int) -> Set<int> {
    Set::new(|x: int| (a <= x <= b) || (b <= x <= a))
}

/// The numbers that one comma-free piece of a spec denotes: a single number
/// or a range `A-B` split at its first `-`.
pub open spec fn piece_numbers(p: Seq<char>) -> Option<Set<int>> {
    match first_index(p, '-') {
        Some(k) => match (
            parse_i32_spec(p.subrange(0, k as int)),
            parse_i32_spec(p.subrange(k + 1int, p.len() as int)),
        ) {
            (Some(a), Some(b)) => Some(range_set(a as int, b as int)),
            _ => None,
        },
        None => match parse_i32_spec(p) {
            Some(a) => Some(set![a as int]),
            None => None,
        },
    }
}

/// The union of the numbers of all pieces, if every piece is well formed.
pub open spec fn pieces_numbers(ps: Seq<Seq<char>>) -> Option<Set<int>>
    decreases ps.len(),
{
    if ps.len() == 0 {
        Some(Set::empty())
    } else {
        match (pieces_numbers(ps.drop_last()), piece_numbers(ps.last())) {
            (Some(a), Some(b)) => Some(a.union(b)),
            _ => None,
        }
    }
}

/// What the token `s` declares: the output (before the first `:`) and the
/// set of workspace numbers (the comma-separated pieces after it).
pub open spec fn token_spec(s: Seq<char>) -> Option<(Seq<char>, Set<int>)> {
    match first_index(s, ':') {
        Some(k) => match pieces_numbers(split_on(s.subrange(k + 1int, s.len() as int), ',')) {
            Some(ns) => Some((s.subrange(0, k as int), ns)),
            None => None,
        },
        None => None,
    }
}

/// Strictly ascending: sorted, without repetitions.
pub open spec fn strictly_sorted(s: Seq<i32>) -> bool {
    forall|i: int, j: int| 0 <= i < j < s.len() ==> s[i] < s[j]
}

/// `s` lists exactly the numbers of `ns`.
pub open spec fn lists_exactly(s: Seq<i32>, ns: Set<int>) -> bool {
    &&& forall|x: i32| s.contains(x) <==> ns.contains(x as int)
    &&& forall|x: int| ns.contains(x) ==> i32::MIN <= x <= i32::MAX
}

proof fn lemma_first_index_found(s: Seq<char>, c: char, i: int)
    requires
        0 <= i < s.len(),
        s[i] == c,
        forall|j: int| 0 <= j < i ==> s[j] != c,
    ensures
        first_index(s, c) == Some(i as nat),
    decreases i,
{
    if i > 0 {
        lemma_first_index_found(s.drop_first(), c, i - 1);
    }
}

proof fn lemma_first_index_none(s: Seq<char>, c: char)
    requires
        forall|j: int| 0 <= j < s.len() ==> s[j] != c,
    ensures
        first_index(s, c) is None,
    decreases s.len(),
{
    if s.len() > 0 {
        lemma_first_index_none(s.drop_first(), c);
    }
}

/// The first index at or after `from` that holds `c`.
pub(crate) fn find_char(s: &Vec<char>, from: usize, c: char) -> (r: Option<usize>)
    requires
        from <= s.len(),
    ensures
        match r {
            Some(k) => from <= k < s.len() && first_index(s@.subrange(from as int, s@.len() as int), c)
                == Some((k - from) as nat),
            None => first_index(s@.subrange(from as int, s@.len() as int), c) is None,
        },
{
    let ghost t = s@.subrange(from as int, s@.len() as int);
    let mut i: usize = from;
    while i < s.len()
        invariant
            from <= i <= s.len(),
            t == s@.subrange(from as int, s@.len() as int),
            forall|j: int| from <= j < i ==> s@[j] != c,
        decreases s.len() - i,
    {
        if s[i] == c {
            proof {
                lemma_first_index_found(t, c, i - from);
            }
            return Some(i);
        }
        i = i + 1;
    }
    proof {
        lemma_first_index_none(t, c);
    }
    None
}

/// A copy of `s[from..to]`.
fn copy_range(s: &Vec<char>, from: usize, to: usize) -> (r: Vec<char>)
    requires
        from <= to <= s.len(),
    ensures
        r@ == s@.subrange(from as int, to as int),
{
    let mut r: Vec<char> = Vec::new();
    let mut i: usize = from;
    while i < to
        invariant
            from <= i <= to <= s.len(),
            r@ == s@.subrange(from as int, i as int),
        decreases to - i,
    {
        r.push(s[i]);
        proof {
            assert(r@ =~= s@.subrange(from as int, i + 1));
        }
        i = i + 1;
    }
    r
}


/// The report on a text that is not a number: the text in quotes, then
/// ` - ` and the reason.
#[verifier::opaque]
pub open spec fn bad_number_text(t: Seq<char>, e: IntError) -> Seq<char> {
    seq!['\''] + t + "' - "@ + int_error_text(e)
}

/// `msg` is the report on the text `t`, for some reason.
pub open spec fn reports(t: Seq<char>, msg: Seq<char>) -> bool {
    exists|e: IntError| #[trigger] bad_number_text(t, e) == msg
}

/// The text of a malformed piece that is not a number: of a range, the
/// side of its first `-` that fails (the left one first); otherwise the
/// whole piece.
#[verifier::opaque]
pub open spec fn offending(p: Seq<char>) -> Seq<char> {
    match first_index(p, '-') {
        Some(k) => if parse_i32_spec(p.subrange(0, k as int)) is None {
            p.subrange(0, k as int)
        } else {
            p.subrange(k + 1int, p.len() as int)
        },
        None => p,
    }
}

/// The piece is malformed.
#[verifier::opaque]
pub open spec fn malformed() -> spec_fn(Seq<char>) -> bool {
    |p: Seq<char>| piece_numbers(p) is None
}

/// What a token with a `:` but a malformed piece is reported with: the
/// report on the first malformed piece after the first `:`.
#[verifier::opaque]
pub open spec fn piece_error(s: Seq<char>, msg: Seq<char>) -> bool {
    match first_index(s, ':') {
        Some(k) => {
            let pieces = split_on(s.subrange(k + 1int, s.len() as int), ',');
            match first_where(pieces, malformed()) {
                Some(i) => reports(offending(pieces[i]), msg),
                None => true,
            }
        },
        None => true,
    }
}

/// A report on a malformed piece whose predecessors are all well formed is
/// the report on the first malformed piece.
proof fn lemma_piece_error(s: Seq<char>, k: nat, done: Seq<Seq<char>>, piece: Seq<char>, msg: Seq<char>)
    requires
        first_index(s, ':') == Some(k),
        k < s.len(),
        split_on(s.subrange(k + 1int, s.len() as int), ',').len() > done.len(),
        split_on(s.subrange(k + 1int, s.len() as int), ',').subrange(0, done.len() + 1int) == done.push(
            piece,
        ),
        pieces_numbers(done) is Some,
        piece_numbers(piece) is None,
        reports(offending(piece), msg),
    ensures
        piece_error(s, msg),
{
    let pieces = split_on(s.subrange(k + 1int, s.len() as int), ',');
    let i = done.len() as int;
    let pre = pieces.subrange(0, i + 1);
    assert(pre == done.push(piece));
    assert(pieces[i] == piece) by {
        assert(pieces[i] == pre[i]);
    }
    lemma_pieces_all_good(done);
    assert forall|j: int| 0 <= j < i implies !malformed()(#[trigger] pieces[j]) by {
        assert(pieces[j] == pre[j]);
        assert(pre[j] == done[j]);
    }
    assert(malformed()(pieces[i])) by {
        reveal(malformed);
    }
    lemma_first_where_found(pieces, malformed(), i);
    assert(reports(offending(pieces[i]), msg));
    reveal(piece_error);
}

proof fn lemma_pieces_all_good(ps: Seq<Seq<char>>)
    requires
        pieces_numbers(ps) is Some,
    ensures
        forall|i: int| 0 <= i < ps.len() ==> !malformed()(#[trigger] ps[i]),
    decreases ps.len(),
{
    reveal(malformed);
    if ps.len() > 0 {
        lemma_pieces_all_good(ps.drop_last());
        assert forall|i: int| 0 <= i < ps.len() implies !malformed()(#[trigger] ps[i]) by {
            if i < ps.len() - 1 {
                assert(ps[i] == ps.drop_last()[i]);
            }
        }
    }
}

proof fn lemma_split_len(s: Seq<char>, c: char)
    ensures
        split_on(s, c).len() >= 1,
    decreases s.len(),
{
    if s.len() > 0 {
        lemma_split_len(s.drop_last(), c);
    }
}

/// Pieces already closed by a separator stay as they are when text follows.
proof fn lemma_split_prefix(s: Seq<char>, c: char, i: int, j: int)
    requires
        0 <= i <= j <= s.len(),
    ensures
        split_on(s.subrange(0, i), c).len() <= split_on(s.subrange(0, j), c).len(),
        split_on(s.subrange(0, j), c).subrange(0, split_on(s.subrange(0, i), c).len() - 1)
            == split_on(s.subrange(0, i), c).drop_last(),
    decreases j - i,
{
    lemma_split_len(s.subrange(0, i), c);
    if j > i {
        lemma_split_prefix(s, c, i, j - 1);
        lemma_split_len(s.subrange(0, j - 1), c);
        assert(s.subrange(0, j).drop_last() =~= s.subrange(0, j - 1));
        let a = split_on(s.subrange(0, i), c);
        let b = split_on(s.subrange(0, j - 1), c);
        let b2 = split_on(s.subrange(0, j), c);
        assert(b2.subrange(0, a.len() - 1) =~= b.subrange(0, a.len() - 1));
    } else {
        assert(split_on(s.subrange(0, i), c).subrange(0, split_on(s.subrange(0, i), c).len() - 1)
            =~= split_on(s.subrange(0, i), c).drop_last());
    }
}

proof fn lemma_pieces_prefix(ps: Seq<Seq<char>>, n: int)
    requires
        0 <= n <= ps.len(),
        pieces_numbers(ps) is Some,
    ensures
        pieces_numbers(ps.subrange(0, n)) is Some,
    decreases ps.len(),
{
    if n < ps.len() {
        assert(ps.drop_last().subrange(0, n) =~= ps.subrange(0, n));
        lemma_pieces_prefix(ps.drop_last(), n);
    } else {
        assert(ps.subrange(0, n) =~= ps);
    }
}

/// Adds `x` to the strictly ascending `v`, keeping it strictly ascending.
fn insert_sorted(v: &mut Vec<i32>, x: i32)
    requires
        strictly_sorted(old(v)@),
    ensures
        strictly_sorted(final(v)@),
        forall|y: i32| #[trigger] final(v)@.contains(y) <==> (old(v)@.contains(y) || y == x),
{
    let mut p: usize = v.len();
    while p > 0 && v[p - 1] > x
        invariant
            p <= v.len(),
            v@ == old(v)@,
            strictly_sorted(v@),
            forall|j: int| p <= j < v.len() ==> v@[j] > x,
        decreases p,
    {
        p = p - 1;
    }
    if p > 0 && v[p - 1] == x {
        proof {
            assert(v@[p - 1] == x);
        }
        return;
    }
    let ghost before = v@;
    assert(before == old(v)@);
    v.insert(p, x);
    proof {
        assert(v@ == before.insert(p as int, x));
        assert(v@ =~= before.subrange(0, p as int).push(x) + before.subrange(p as int, before.len() as int));
        assert forall|y: i32| #[trigger] v@.contains(y) <==> (before.contains(y) || y == x) by {
            if v@.contains(y) {
                let k = choose|k: int| 0 <= k < v@.len() && v@[k] == y;
                if k < p {
                    assert(before[k] == y);
                } else if k > p {
                    assert(before[k - 1] == y);
                }
            }
            if before.contains(y) {
                let k = choose|k: int| 0 <= k < before.len() && before[k] == y;
                if k < p {
                    assert(v@[k] == y);
                } else {
                    assert(v@[k + 1] == y);
                }
            }
            if y == x {
                assert(v@[p as int] == y);
            }
        }
    }
}

/// Adds the numbers of the piece `p` to `nums`, or says why `p` is malformed.
fn add_piece(p: &Vec<char>, nums: &mut Vec<i32>) -> (r: Result<(), String>)
    requires
        strictly_sorted(old(nums)@),
    ensures
        strictly_sorted(final(nums)@),
        r is Ok <==> piece_numbers(p@) is Some,
        r is Ok ==> forall|y: i32| #[trigger] final(nums)@.contains(y) <==> (old(nums)@.contains(y)
            || piece_numbers(p@)->Some_0.contains(y as int)),
        r is Ok ==> forall|x: int| piece_numbers(p@)->Some_0.contains(x) ==> i32::MIN <= x <= i32::MAX,
        r is Err ==> reports(offending(p@), r->Err_0@),
{
    match find_char(p, 0, '-') {
        Some(k) => {
            proof {
                assert(p@.subrange(0, p@.len() as int) =~= p@);
            }
            let left = copy_range(p, 0, k);
            let right = copy_range(p, k + 1, p.len());
            let a = match parse_i32(left.as_slice()) {
                Ok(a) => a,
                Err(e) => {
                    let msg = parse_message(&left, e);
                    proof {
                        reveal(offending);
                        assert(offending(p@) == left@);
                        assert(msg@ == bad_number_text(offending(p@), e));
                    }
                    return Err(msg);
                },
            };
            let b = match parse_i32(right.as_slice()) {
                Ok(b) => b,
                Err(e) => {
                    let msg = parse_message(&right, e);
                    proof {
                        reveal(offending);
                        assert(offending(p@) == right@);
                        assert(msg@ == bad_number_text(offending(p@), e));
                    }
                    return Err(msg);
                },
            };
            let (lo, hi) = if a <= b { (a, b) } else { (b, a) };
            let ghost ns = range_set(a as int, b as int);
            let ghost start = nums@;
            let mut n: i64 = lo as i64;
            while n <= hi as i64
                invariant
                    lo <= n <= hi as i64 + 1,
                    strictly_sorted(nums@),
                    forall|y: i32| #[trigger] nums@.contains(y) <==> (start.contains(y) || (lo <= y
                        && y < n)),
                decreases hi as i64 + 1 - n,
            {
                insert_sorted(nums, n as i32);
                n = n + 1;
            }
            Ok(())
        },
        None => {
            proof {
                assert(p@.subrange(0, p@.len() as int) =~= p@);
            }
            match parse_i32(p.as_slice()) {
                Ok(a) => {
                    insert_sorted(nums, a);
                    Ok(())
                },
                Err(e) => {
                    let msg = parse_message(p, e);
                    proof {
                        reveal(offending);
                        assert(msg@ == bad_number_text(offending(p@), e));
                    }
                    Err(msg)
                },
            }
        },
    }
}

/// The report on a piece that is not a number: the piece in quotes and the reason.
fn parse_message(piece: &Vec<char>, e: IntError) -> (r: String)
    ensures
        r@ == bad_number_text(piece@, e),
{
    let mut m: Vec<char> = Vec::new();
    m.push('\'');
    let mut copy = piece.clone();
    m.append(&mut copy);
    push_str(&mut m, "' - ");
    let reason = e.message();
    push_str(&mut m, reason.as_str());
    proof {
        reveal(bad_number_text);
        assert(m@ =~= bad_number_text(piece@, e));
    }
    string_of(m.as_slice())
}

/// Reads an `output:spec` token: the output is the text before the first
/// `:`, and the numbers are those of the comma-separated pieces after it,
/// each a number or an inclusive range `A-B` in either order. The numbers
/// come back ascending and without repetitions.
#[verifier::rlimit(30)]
pub fn map_validator(string: String) -> (r: Result<(String, Vec<i32>), String>)
    ensures
        r is Ok <==> token_spec(string@) is Some,
        r is Ok ==> r->Ok_0.0@ == token_spec(string@)->Some_0.0,
        r is Ok ==> strictly_sorted(r->Ok_0.1@),
        r is Ok ==> lists_exactly(r->Ok_0.1@, token_spec(string@)->Some_0.1),
        first_index(string@, ':') is None ==> r is Err && r->Err_0@ == "must contain colon as separator"@,
        r is Err ==> piece_error(string@, r->Err_0@),
{
    let cs = chars_of(string.as_str());
    let k = match find_char(&cs, 0, ':') {
        Some(k) => k,
        None => {
            proof {
                assert(cs@.subrange(0, cs@.len() as int) =~= cs@);
                reveal(piece_error);
            }
            return Err(string_of(chars_of("must contain colon as separator").as_slice()));
        },
    };
    proof {
        assert(cs@.subrange(0, cs@.len() as int) =~= cs@);
    }
    let base: usize = k + 1;
    let ghost w = cs@.subrange(base as int, cs@.len() as int);
    let mut nums: Vec<i32> = Vec::new();
    let mut start: usize = base;
    let mut i: usize = base;
    let ghost mut done: Seq<Seq<char>> = Seq::empty();
    proof {
        assert(w.subrange(0, 0) =~= Seq::<char>::empty());
        assert(cs@.subrange(start as int, i as int) =~= Seq::<char>::empty());
        assert(nums@ =~= Seq::<i32>::empty());
    }
    while i < cs.len()
        invariant
            base <= start <= i <= cs.len(),
            cs@ == string@,
            base == k + 1,
            first_index(cs@, ':') == Some(k as nat),
            w == cs@.subrange(base as int, cs@.len() as int),
            split_on(w.subrange(0, i - base), ',') == done.push(cs@.subrange(start as int, i as int)),
            pieces_numbers(done) is Some,
            strictly_sorted(nums@),
            lists_exactly(nums@, pieces_numbers(done)->Some_0),
        decreases cs.len() - i,
    {
        let ghost pre = w.subrange(0, i - base);
        let ghost next = w.subrange(0, i + 1 - base);
        proof {
            assert(next.drop_last() =~= pre);
            assert(next.last() == cs@[i as int]);
        }
        if cs[i] == ',' {
            let piece = copy_range(&cs, start, i);
            let ghost before = nums@;
            let res = add_piece(&piece, &mut nums);
            if res.is_err() {
                proof {
                    let full = split_on(w, ',');
                    assert(w.subrange(0, w.len() as int) =~= w);
                    lemma_split_prefix(w, ',', i + 1 - base, w.len() as int);
                    assert(split_on(next, ',') == done.push(piece@).push(Seq::<char>::empty()));
                    assert(full.subrange(0, done.len() + 1int) =~= done.push(piece@));
                    if pieces_numbers(full) is Some {
                        lemma_pieces_prefix(full, done.len() + 1int);
                        assert(done.push(piece@).drop_last() =~= done);
                    }
                }
                match res {
                    Err(e) => {
                        proof {
                            lemma_split_len(w, ',');
                            lemma_piece_error(string@, k as nat, done, piece@, e@);
                        }
                        return Err(e);
                    },
                    Ok(_) => {},
                }
            }
            proof {
                let old_done = done;
                done = done.push(piece@);
                assert(done.drop_last() =~= old_done);
                assert(split_on(next, ',') =~= done.push(Seq::<char>::empty()));
            }
            start = i + 1;
            proof {
                assert(cs@.subrange(start as int, i + 1) =~= Seq::<char>::empty());
            }
        } else {
            proof {
                assert(cs@.subrange(start as int, i + 1) =~= cs@.subrange(start as int, i as int).push(cs@[i as int]));
                assert(split_on(next, ',') =~= done.push(cs@.subrange(start as int, i + 1)));
            }
        }
        i = i + 1;
    }
    let piece = copy_range(&cs, start, cs.len());
    let ghost before = nums@;
    proof {
        assert(w.subrange(0, w.len() as int) =~= w);
    }
    let res = add_piece(&piece, &mut nums);
    match res {
        Err(e) => {
            proof {
                let full = split_on(w, ',');
                lemma_split_len(w, ',');
                assert(full.drop_last() =~= done);
                assert(full.last() == piece@);
                assert(full.subrange(0, done.len() + 1int) =~= done.push(piece@));
                lemma_piece_error(string@, k as nat, done, piece@, e@);
            }
            return Err(e);
        },
        Ok(_) => {},
    }
    proof {
        let full = split_on(w, ',');
        assert(full.drop_last() =~= done);
        assert(full.last() == piece@);
    }
    let output = string_of(copy_range(&cs, 0, k).as_slice());
    Ok((output, nums))
}

proof fn lemma_split_without_sep(s: Seq<char>, c: char)
    requires
        forall|j: int| 0 <= j < s.len() ==> s[j] != c,
    ensures
        split_on(s, c) == seq![s],
    decreases s.len(),
{
    if s.len() > 0 {
        lemma_split_without_sep(s.drop_last(), c);
        assert(s.drop_last().push(s.last()) =~= s);
        assert(seq![s.drop_last()].update(0, s.drop_last().push(s.last())) =~= seq![s]);
    } else {
        assert(s =~= Seq::<char>::empty());
    }
}

/// What the token `o:a-b` declares, for an output `o` without `:` and two
/// unsigned decimal numbers `a` and `b`.
proof fn lemma_range_token(o: Seq<char>, a: Seq<char>, b: Seq<char>)
    requires
        forall|j: int| 0 <= j < o.len() ==> o[j] != ':',
        a.len() > 0 && crate::text::all_digits(a),
        b.len() > 0 && crate::text::all_digits(b),
        parse_i32_spec(a) is Some,
        parse_i32_spec(b) is Some,
    ensures
        token_spec(o + seq![':'] + a + seq!['-'] + b) == Some(
            (o, range_set(parse_i32_spec(a)->Some_0 as int, parse_i32_spec(b)->Some_0 as int)),
        ),
{
    let s = o + seq![':'] + a + seq!['-'] + b;
    let k = o.len() as int;
    assert(s[k] == ':');
    assert forall|j: int| 0 <= j < k implies s[j] != ':' by {
        assert(s[j] == o[j]);
    }
    lemma_first_index_found(s, ':', k);
    let rest = s.subrange(k + 1, s.len() as int);
    assert(rest =~= a + seq!['-'] + b);
    assert forall|j: int| 0 <= j < rest.len() implies rest[j] != ',' by {
        if j < a.len() {
            assert(rest[j] == a[j]);
            assert(crate::text::is_digit(a[j]));
        } else if j > a.len() {
            assert(rest[j] == b[j - a.len() - 1]);
            assert(crate::text::is_digit(b[j - a.len() - 1]));
        }
    }
    lemma_split_without_sep(rest, ',');
    let dash = a.len() as int;
    assert(rest[dash] == '-');
    assert forall|j: int| 0 <= j < dash implies rest[j] != '-' by {
        assert(rest[j] == a[j]);
        assert(crate::text::is_digit(a[j]));
    }
    lemma_first_index_found(rest, '-', dash);
    assert(rest.subrange(0, dash) =~= a);
    assert(rest.subrange(dash + 1, rest.len() as int) =~= b);
    assert(s.subrange(0, k) =~= o);
    let ps = seq![rest];
    assert(ps.drop_last() =~= Seq::<Seq<char>>::empty());
    let ns = range_set(parse_i32_spec(a)->Some_0 as int, parse_i32_spec(b)->Some_0 as int);
    assert(piece_numbers(rest) == Some(ns));
    assert(ps.last() == rest);
    assert(pieces_numbers(ps.drop_last()) == Some(Set::<int>::empty()));
    assert(Set::<int>::empty().union(ns) =~= ns);
    assert(pieces_numbers(ps) == Some(ns));
    assert(first_index(s, ':') == Some(o.len()));
    assert(split_on(s.subrange(o.len() + 1int, s.len() as int), ',') == ps);
}

/// The order of the ends of a range does not matter: `o:a-b` and `o:b-a`
/// declare the same output and the same numbers, every number between the
/// two ends.
pub proof fn lemma_range_order_irrelevant(o: Seq<char>, a: Seq<char>, b: Seq<char>)
    requires
        forall|j: int| 0 <= j < o.len() ==> o[j] != ':',
        a.len() > 0 && crate::text::all_digits(a),
        b.len() > 0 && crate::text::all_digits(b),
        parse_i32_spec(a) is Some,
        parse_i32_spec(b) is Some,
    ensures
        token_spec(o + seq![':'] + a + seq!['-'] + b) == token_spec(o + seq![':'] + b + seq!['-'] + a),
        token_spec(o + seq![':'] + a + seq!['-'] + b) is Some,
        forall|x: int|
            #[trigger] token_spec(o + seq![':'] + a + seq!['-'] + b)->Some_0.1.contains(x) <==> (
            parse_i32_spec(a)->Some_0 <= x <= parse_i32_spec(b)->Some_0 || parse_i32_spec(b)->Some_0
                <= x <= parse_i32_spec(a)->Some_0),
{
    lemma_range_token(o, a, b);
    lemma_range_token(o, b, a);
    let va = parse_i32_spec(a)->Some_0 as int;
    let vb = parse_i32_spec(b)->Some_0 as int;
    assert(range_set(va, vb) =~= range_set(vb, va));
}

} // verus!
