use vstd::prelude::*;
use crate::operator::{Operator, is_operator, single, spelling, operator_of};
use crate::lexer::{all_operators, filter, filter_spec, lemma_filter_spec};

verus! {

/// The instruction stream after one more operator character `c`: a `+` that
/// follows a run of `+` lengthens that run, a `-` that follows a run of `-`
/// lengthens that one, and every other character is an instruction of its own.
pub open spec fn push_char(acc: Seq<Operator>, c: char) -> Seq<Operator> {
    if c == '+' && acc.len() > 0 && acc.last() is IncrementBy {
        acc.drop_last().push(Operator::IncrementBy((acc.last()->IncrementBy_0 + 1) as u64))
    } else if c == '-' && acc.len() > 0 && acc.last() is DecrementBy {
        acc.drop_last().push(Operator::DecrementBy((acc.last()->DecrementBy_0 + 1) as u64))
    } else {
        acc.push(single(c))
    }
}

/// The instruction stream of a text of operator characters, read left to right.
pub open spec fn group_spec(s: Seq<char>) -> Seq<Operator>
    decreases s.len(),
{
    if s.len() == 0 {
        Seq::empty()
    } else {
        push_char(group_spec(s.drop_last()), s.last())
    }
}

/// The characters that an instruction stream stands for.
pub open spec fn flatten_spec(ops: Seq<Operator>) -> Seq<char>
    decreases ops.len(),
{
    if ops.len() == 0 {
        Seq::empty()
    } else {
        flatten_spec(ops.drop_last()) + spelling(ops.last())
    }
}

/// Whether every run of the stream has a count of at least one and at most `bound`.
pub open spec fn counts_within(ops: Seq<Operator>, bound: int) -> bool {
    forall|i: int|
        0 <= i < ops.len() ==> match #[trigger] ops[i] {
            Operator::IncrementBy(n) => 1 <= n <= bound,
            Operator::DecrementBy(n) => 1 <= n <= bound,
            _ => true,
        }
}

/// Whether no two neighbours of the stream are runs of the same character:
/// every run is as long as it can be.
pub open spec fn runs_maximal(ops: Seq<Operator>) -> bool {
    forall|i: int|
        0 < i < ops.len() ==> !(#[trigger] ops[i] is IncrementBy && ops[i - 1] is IncrementBy) && !(
        ops[i] is DecrementBy && ops[i - 1] is DecrementBy)
}

/// One more character keeps the counts positive and the runs maximal, and
/// appends exactly that character to what the stream spells.
pub proof fn lemma_push_char(acc: Seq<Operator>, c: char, bound: int)
    requires
        is_operator(c),
        counts_within(acc, bound),
        runs_maximal(acc),
        0 <= bound < u64::MAX,
    ensures
        counts_within(push_char(acc, c), bound + 1),
        runs_maximal(push_char(acc, c)),
        flatten_spec(push_char(acc, c)) == flatten_spec(acc).push(c),
        push_char(acc, c).len() >= 1,
        push_char(acc, c).len() <= acc.len() + 1,
{
    let r = push_char(acc, c);
    let lengthens = (c == '+' && acc.len() > 0 && acc.last() is IncrementBy) || (c == '-'
        && acc.len() > 0 && acc.last() is DecrementBy);
    if lengthens {
        assert(r.drop_last() =~= acc.drop_last());
        assert(spelling(r.last()) =~= spelling(acc.last()).push(c));
        assert(flatten_spec(r) =~= flatten_spec(acc).push(c));
    } else {
        assert(r.drop_last() =~= acc);
        assert(spelling(single(c)) =~= seq![c]);
        assert(flatten_spec(r) =~= flatten_spec(acc).push(c));
    }
    assert forall|i: int| 0 < i < r.len() implies !(#[trigger] r[i] is IncrementBy && r[i
        - 1] is IncrementBy) && !(r[i] is DecrementBy && r[i - 1] is DecrementBy) by {
        if i < r.len() - 1 {
            assert(r[i] == acc[i]);
        }
        assert(r[i - 1] == acc[i - 1]);
    }
    assert forall|i: int| 0 <= i < r.len() implies match #[trigger] r[i] {
        Operator::IncrementBy(n) => 1 <= n <= bound + 1,
        Operator::DecrementBy(n) => 1 <= n <= bound + 1,
        _ => true,
    } by {
        if i < r.len() - 1 {
            assert(r[i] == acc[i]);
        } else if lengthens {
            assert(acc[acc.len() - 1] == acc.last());
        }
    }
}

/// Grouping loses nothing and merges all it can: the stream spells the text
/// it was made from, every count is at least one, and no two neighbouring
/// runs are of the same character.
pub proof fn lemma_group_spec(s: Seq<char>)
    requires
        all_operators(s),
        s.len() <= u64::MAX,
    ensures
        flatten_spec(group_spec(s)) == s,
        counts_within(group_spec(s), s.len() as int),
        runs_maximal(group_spec(s)),
        group_spec(s).len() <= s.len(),
    decreases s.len(),
{
    if s.len() > 0 {
        let t = s.drop_last();
        assert forall|i: int| 0 <= i < t.len() implies is_operator(#[trigger] t[i]) by {
            assert(t[i] == s[i]);
        }
        lemma_group_spec(t);
        assert(is_operator(s[s.len() - 1]));
        lemma_push_char(group_spec(t), s.last(), t.len() as int);
        assert(t.push(s.last()) =~= s);
    }
}

/// Grouping again what a grouped text spells changes nothing.
pub proof fn lemma_group_idempotent(s: Seq<char>)
    requires
        all_operators(s),
        s.len() <= u64::MAX,
    ensures
        group_spec(flatten_spec(group_spec(s))) == group_spec(s),
{
    lemma_group_spec(s);
}

/// Coalesces each run of `+` and each run of `-` into one counted instruction;
/// every other operator stays an instruction of its own.
pub fn group(chars: &Vec<char>) -> (r: Vec<Operator>)
    requires
        all_operators(chars@),
    ensures
        r@ == group_spec(chars@),
        flatten_spec(r@) == chars@,
        counts_within(r@, chars@.len() as int),
        runs_maximal(r@),
{
    let mut out: Vec<Operator> = Vec::new();
    let mut i: usize = 0;
    while i < chars.len()
        invariant
            0 <= i <= chars.len(),
            all_operators(chars@),
            out@ == group_spec(chars@.take(i as int)),
        decreases chars.len() - i,
    {
        let c = chars[i];
        proof {
            let t = chars@.take(i as int);
            assert(chars@.take(i + 1).drop_last() =~= t);
            assert(chars@.take(i + 1).last() == c);
            assert forall|k: int| 0 <= k < t.len() implies is_operator(#[trigger] t[k]) by {
                assert(t[k] == chars@[k]);
            }
            lemma_group_spec(t);
            assert(is_operator(chars@[i as int]));
        }
        let n: usize = out.len();
        let mut merged = false;
        if n > 0 {
            match out[n - 1] {
                Operator::IncrementBy(k) => {
                    if c == '+' {
                        assert(out@[n - 1] is IncrementBy);
                        assert(k <= i);
                        out.set(n - 1, Operator::IncrementBy(k + 1));
                        merged = true;
                        assert(out@ =~= push_char(group_spec(chars@.take(i as int)), c));
                    }
                },
                Operator::DecrementBy(k) => {
                    if c == '-' {
                        assert(out@[n - 1] is DecrementBy);
                        assert(k <= i);
                        out.set(n - 1, Operator::DecrementBy(k + 1));
                        merged = true;
                        assert(out@ =~= push_char(group_spec(chars@.take(i as int)), c));
                    }
                },
                _ => {},
            }
        }
        if !merged {
            match operator_of(c) {
                Some(op) => {
                    out.push(op);
                },
                None => {},
            }
        }
        i = i + 1;
    }
    proof {
        assert(chars@.take(chars@.len() as int) =~= chars@);
        lemma_group_spec(chars@);
    }
    out
}

/// Spells an instruction stream out as operator characters.
pub fn flatten(ops: &Vec<Operator>) -> (r: Vec<char>)
    ensures
        r@ == flatten_spec(ops@),
{
    let mut out: Vec<char> = Vec::new();
    let mut i: usize = 0;
    while i < ops.len()
        invariant
            0 <= i <= ops.len(),
            out@ == flatten_spec(ops@.take(i as int)),
        decreases ops.len() - i,
    {
        let ghost before = out@;
        proof {
            assert(ops@.take(i + 1).drop_last() =~= ops@.take(i as int));
            assert(ops@.take(i + 1).last() == ops@[i as int]);
        }
        match ops[i] {
            Operator::IncrementBy(n) => {
                let mut k: u64 = 0;
                while k < n
                    invariant
                        0 <= k <= n,
                        out@ == before + Seq::new(k as nat, |j: int| '+'),
                    decreases n - k,
                {
                    out.push('+');
                    k = k + 1;
                    assert(out@ =~= before + Seq::new(k as nat, |j: int| '+'));
                }
            },
            Operator::DecrementBy(n) => {
                let mut k: u64 = 0;
                while k < n
                    invariant
                        0 <= k <= n,
                        out@ == before + Seq::new(k as nat, |j: int| '-'),
                    decreases n - k,
                {
                    out.push('-');
                    k = k + 1;
                    assert(out@ =~= before + Seq::new(k as nat, |j: int| '-'));
                }
            },
            Operator::MoveRight => { out.push('>'); },
            Operator::MoveLeft => { out.push('<'); },
            Operator::LoopStart => { out.push('['); },
            Operator::LoopEnd => { out.push(']'); },
            Operator::Output => { out.push('.'); },
            Operator::Input => { out.push(','); },
        }
        assert(out@ =~= before + spelling(ops@[i as int]));
        i = i + 1;
    }
    proof {
        assert(ops@.take(ops@.len() as int) =~= ops@);
    }
    out
}

/// The instruction stream of a source text: its comments dropped, its runs grouped.
pub open spec fn parse_spec(source: Seq<char>) -> Seq<Operator> {
    group_spec(filter_spec(source))
}

/// Reads a source text into its instruction stream.
pub fn parse(source: &str) -> (r: Vec<Operator>)
    ensures
        r@ == parse_spec(source@),
        flatten_spec(r@) == filter_spec(source@),
        counts_within(r@, source@.len() as int),
        runs_maximal(r@),
{
    let chars = filter(source);
    proof {
        lemma_filter_spec(source@);
    }
    group(&chars)
}

/// A text without any operator character has the empty instruction stream.
pub proof fn lemma_comment_only(source: Seq<char>)
    requires
        forall|i: int| 0 <= i < source.len() ==> !is_operator(#[trigger] source[i]),
    ensures
        filter_spec(source) == Seq::<char>::empty(),
        parse_spec(source) == Seq::<Operator>::empty(),
    decreases source.len(),
{
    reveal(Seq::filter);
    if source.len() > 0 {
        let t = source.drop_last();
        assert forall|i: int| 0 <= i < t.len() implies !is_operator(#[trigger] t[i]) by {
            assert(t[i] == source[i]);
        }
        lemma_comment_only(t);
        assert(!is_operator(source[source.len() - 1]));
        assert(filter_spec(source) =~= filter_spec(t));
    } else {
        assert(filter_spec(source) =~= Seq::<char>::empty());
    }
}

} // verus!
