//! Fully-qualified variable names.
//!
//! A variable is known by the namespace segments of its path and its own name,
//! joined by a reserved separator. A name that is already taken is told apart
//! by a suffix that holds the number of variables registered so far.

use vstd::prelude::*;
use vstd::string::*;

verus! {

/// The character that separates the elements of a fully-qualified name.
pub const SEP: char = '|';

/// The separator occurs in `s`.
pub open spec fn has_sep(s: Seq<char>) -> bool {
    s.contains(SEP)
}

/// Tells whether `s` holds the separator, and so cannot be a namespace segment
/// or a variable's own name.
pub fn contains_sep(s: &str) -> (r: bool)
    ensures
        r == has_sep(s@),
{
    let mut found = false;
    for c in it: s.chars()
        invariant
            it.seq() == s@,
            found <==> exists|j: int| 0 <= j < it.index() && s@[j] == SEP,
    {
        if c == SEP {
            found = true;
        }
    }
    found
}

/// The elements of `parts`, each separated from the next by the separator.
pub open spec fn joined(parts: Seq<Seq<char>>) -> Seq<char>
    decreases parts.len(),
{
    if parts.len() == 0 {
        Seq::empty()
    } else if parts.len() == 1 {
        parts[0]
    } else {
        joined(parts.drop_last()) + seq![SEP] + parts.last()
    }
}

/// The fully-qualified name of the variable `name` under the namespace
/// `segments`: the name alone at the root, else the joined segments, the
/// separator and the name.
pub open spec fn qualified_name(segments: Seq<Seq<char>>, name: Seq<char>) -> Seq<char> {
    if segments.len() == 0 {
        name
    } else {
        joined(segments) + seq![SEP] + name
    }
}

/// No element of `parts` holds the separator.
pub open spec fn sep_free(parts: Seq<Seq<char>>) -> bool {
    forall|i: int| 0 <= i < parts.len() ==> !has_sep(#[trigger] parts[i])
}

/// The fully-qualified name is the segments and the name, joined.
pub proof fn lemma_qualified_name_is_joined(segments: Seq<Seq<char>>, name: Seq<char>)
    ensures
        qualified_name(segments, name) == joined(segments.push(name)),
{
    assert(segments.push(name).drop_last() =~= segments);
}

/// Elements without the separator can be read back from what they were
/// joined to: two different lists of them are never joined to the same
/// string.
pub proof fn lemma_joined_is_injective(a: Seq<Seq<char>>, b: Seq<Seq<char>>)
    requires
        a.len() > 0,
        b.len() > 0,
        sep_free(a),
        sep_free(b),
        joined(a) == joined(b),
    ensures
        a == b,
    decreases a.len(),
{
    let whole = joined(a);
    let n = whole.len() as int;
    if a.len() == 1 || b.len() == 1 {
        if a.len() > 1 {
            let k = joined(a.drop_last()).len() as int;
            assert(whole[k] == SEP);
            assert(b[0].contains(SEP));
        }
        if b.len() > 1 {
            let k = joined(b.drop_last()).len() as int;
            assert(joined(b)[k] == SEP);
            assert(a[0].contains(SEP));
        }
        assert(a =~= b);
    } else {
        let (ra, la) = (a.drop_last(), a.last());
        let (rb, lb) = (b.drop_last(), b.last());
        assert(whole == joined(ra) + seq![SEP] + la);
        assert(whole == joined(rb) + seq![SEP] + lb);
        let ka = joined(ra).len() as int;
        let kb = joined(rb).len() as int;
        assert(whole[ka] == SEP);
        assert(whole[kb] == SEP);
        if ka < kb {
            assert(la[kb - ka - 1] == whole[kb]);
            assert(la.contains(SEP));
        }
        if kb < ka {
            assert(lb[ka - kb - 1] == whole[ka]);
            assert(lb.contains(SEP));
        }
        assert(joined(ra) =~= whole.subrange(0, ka));
        assert(joined(rb) =~= whole.subrange(0, kb));
        assert(la =~= whole.subrange(ka + 1, n));
        assert(lb =~= whole.subrange(kb + 1, n));
        assert(sep_free(ra)) by {
            assert forall|i: int| 0 <= i < ra.len() implies !has_sep(#[trigger] ra[i]) by {
                assert(ra[i] == a[i]);
            }
        }
        assert(sep_free(rb)) by {
            assert forall|i: int| 0 <= i < rb.len() implies !has_sep(#[trigger] rb[i]) by {
                assert(rb[i] == b[i]);
            }
        }
        lemma_joined_is_injective(ra, rb);
        assert(a =~= ra.push(la));
        assert(b =~= rb.push(lb));
    }
}

/// The character sequences that a vector of strings holds.
pub open spec fn views_of(strings: Seq<String>) -> Seq<Seq<char>> {
    Seq::new(strings.len(), |i: int| strings[i]@)
}

/// Computes the fully-qualified name of `name` under `segments`.
pub fn qualify(segments: &Vec<String>, name: &str) -> (out: String)
    ensures
        out@ == qualified_name(views_of(segments@), name@),
{
    let ghost parts = views_of(segments@);
    let mut out = String::new();
    let mut i: usize = 0;
    while i < segments.len()
        invariant
            i <= segments.len(),
            parts == views_of(segments@),
            out@ == joined(parts.take(i as int)),
        decreases segments.len() - i,
    {
        proof {
            reveal_strlit("|");
            assert(parts.take(i + 1).drop_last() =~= parts.take(i as int));
            assert("|"@ =~= seq![SEP]);
        }
        if i > 0 {
            out.append("|");
        }
        out.append(segments[i].as_str());
        proof {
            if i == 0 {
                assert(out@ =~= parts[0]);
            }
        }
        i += 1;
    }
    proof {
        reveal_strlit("|");
        assert(parts.take(segments.len() as int) =~= parts);
        assert("|"@ =~= seq![SEP]);
    }
    if segments.len() > 0 {
        out.append("|");
    }
    out.append(name);
    proof {
        if segments.len() == 0 {
            assert(out@ =~= name@);
        }
    }
    out
}

/// The decimal digit of `d`, for `d` below ten.
pub open spec fn digit(d: int) -> char {
    if d == 0 {
        '0'
    } else if d == 1 {
        '1'
    } else if d == 2 {
        '2'
    } else if d == 3 {
        '3'
    } else if d == 4 {
        '4'
    } else if d == 5 {
        '5'
    } else if d == 6 {
        '6'
    } else if d == 7 {
        '7'
    } else if d == 8 {
        '8'
    } else {
        '9'
    }
}

/// `n` written in base ten, without leading zeros.
pub open spec fn decimal(n: nat) -> Seq<char>
    decreases n,
{
    if n < 10 {
        seq![digit(n as int)]
    } else {
        decimal(n / 10).push(digit((n % 10) as int))
    }
}

fn digit_str(d: usize) -> (s: &'static str)
    requires
        d < 10,
    ensures
        s@ == seq![digit(d as int)],
{
    proof {
        reveal_strlit("0");
        reveal_strlit("1");
        reveal_strlit("2");
        reveal_strlit("3");
        reveal_strlit("4");
        reveal_strlit("5");
        reveal_strlit("6");
        reveal_strlit("7");
        reveal_strlit("8");
        reveal_strlit("9");
    }
    let s = if d == 0 {
        "0"
    } else if d == 1 {
        "1"
    } else if d == 2 {
        "2"
    } else if d == 3 {
        "3"
    } else if d == 4 {
        "4"
    } else if d == 5 {
        "5"
    } else if d == 6 {
        "6"
    } else if d == 7 {
        "7"
    } else if d == 8 {
        "8"
    } else {
        "9"
    };
    assert(s@ =~= seq![digit(d as int)]);
    s
}

/// Writes `n` in base ten.
pub fn decimal_string(n: usize) -> (out: String)
    ensures
        out@ == decimal(n as nat),
{
    let mut out = String::from_str(digit_str(n % 10));
    let mut rest: usize = n / 10;
    while rest > 0
        invariant
            decimal(n as nat) == if rest == 0 {
                out@
            } else {
                decimal(rest as nat) + out@
            },
        decreases rest,
    {
        let head = String::from_str(digit_str(rest % 10));
        proof {
            if rest >= 10 {
                assert(decimal(rest as nat) + out@ =~= decimal((rest / 10) as nat) + (head@
                    + out@));
            } else {
                assert(decimal(rest as nat) + out@ =~= head@ + out@);
            }
        }
        out = head.concat(out.as_str());
        rest = rest / 10;
    }
    out
}

/// The name that a variable gets when `path` is already taken while `count`
/// variables are registered: `path`, two underscores and `count` in base ten.
pub open spec fn disambiguated(path: Seq<char>, count: nat) -> Seq<char> {
    path + seq!['_', '_'] + decimal(count)
}

/// Computes the name that tells a second variable of the same path apart.
pub fn disambiguate(path: &str, count: usize) -> (out: String)
    ensures
        out@ == disambiguated(path@, count as nat),
{
    proof {
        reveal_strlit("__");
        assert("__"@ =~= seq!['_', '_']);
    }
    let mut out = String::from_str(path);
    out.append("__");
    let digits = decimal_string(count);
    out.append(digits.as_str());
    out
}

/// A disambiguated name is never the path it was made from.
pub proof fn lemma_disambiguated_differs(path: Seq<char>, count: nat)
    ensures
        disambiguated(path, count) != path,
{
    assert(disambiguated(path, count).len() == path.len() + 2 + decimal(count).len());
}

} // verus!
