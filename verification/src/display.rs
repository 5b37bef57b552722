//! Presentation of open quests: the display ordering (daily quests before
//! one-shot quests, higher rewards first within each kind, ties keeping
//! their relative order) and the text of the displayed lines.

use crate::profile::Profile;
use crate::quest::{views_of, Quest, QuestV};
use vstd::prelude::*;
use vstd::string::StringExecFns;

verus! {

/// "May come at or before": `a` is allowed to precede `b` in the display
/// order. Either `a` is daily and `b` is not, or the two agree on `daily`
/// and `a`'s reward is at least `b`'s.
pub open spec fn display_le(a: QuestV, b: QuestV) -> bool {
    ||| (a.daily && !b.daily)
    ||| (a.daily == b.daily && a.exp >= b.exp)
}

/// Every pair of a sequence respects the display order.
pub open spec fn display_sorted(qs: Seq<QuestV>) -> bool {
    forall|i: int, j: int| 0 <= i < j < qs.len() ==> #[trigger] display_le(qs[i], qs[j])
}

/// The quests carrying exactly the given pair of sort keys.
pub open spec fn with_key(daily: bool, exp: int) -> spec_fn(QuestV) -> bool {
    |q: QuestV| q.daily == daily && q.exp == exp
}

/// Swapping two adjacent elements of which at most one satisfies `p`
/// leaves the subsequence of elements satisfying `p` unchanged.
proof fn lemma_filter_adjacent_swap(s: Seq<QuestV>, j: int, p: spec_fn(QuestV) -> bool)
    requires
        0 <= j,
        j + 1 < s.len(),
        !(p(s[j]) && p(s[j + 1])),
    ensures
        s.update(j, s[j + 1]).update(j + 1, s[j]).filter(p) == s.filter(p),
    decreases s.len(),
{
    reveal(Seq::filter);
    let s2 = s.update(j, s[j + 1]).update(j + 1, s[j]);
    if j + 1 == s.len() - 1 {
        let pre = s.subrange(0, j);
        let x = s[j];
        let y = s[j + 1];
        assert(s.drop_last() =~= pre.push(x));
        assert(s2.drop_last() =~= pre.push(y));
        assert(pre.push(x).drop_last() =~= pre);
        assert(pre.push(y).drop_last() =~= pre);
        assert(s.filter(p) == if p(y) {
            pre.push(x).filter(p).push(y)
        } else {
            pre.push(x).filter(p)
        });
        assert(s2.filter(p) == if p(x) {
            pre.push(y).filter(p).push(x)
        } else {
            pre.push(y).filter(p)
        });
        assert(pre.push(x).filter(p) == if p(x) {
            pre.filter(p).push(x)
        } else {
            pre.filter(p)
        });
        assert(pre.push(y).filter(p) == if p(y) {
            pre.filter(p).push(y)
        } else {
            pre.filter(p)
        });
    } else {
        let t = s.drop_last();
        let t2 = s2.drop_last();
        assert(t2 =~= t.update(j, t[j + 1]).update(j + 1, t[j]));
        lemma_filter_adjacent_swap(t, j, p);
        assert(s2.last() == s.last());
    }
}

/// Exec form of [`display_le`].
fn le_display(a: &Quest, b: &Quest) -> (r: bool)
    ensures
        r == display_le(a@, b@),
{
    (a.daily && !b.daily) || (a.daily == b.daily && a.exp >= b.exp)
}

/// Stable insertion sort by the display order: afterwards the quests are
/// pairwise ordered, and for every pair of sort keys the subsequence of
/// quests carrying those keys is exactly what it was before.
pub fn sort_for_display(v: &mut Vec<Quest>)
    ensures
        final(v)@.len() == old(v)@.len(),
        display_sorted(views_of(final(v)@)),
        forall|d: bool, e: int|
            views_of(final(v)@).filter(#[trigger] with_key(d, e)) == views_of(old(v)@).filter(
                with_key(d, e),
            ),
{
    let n = v.len();
    if n == 0 {
        return ;
    }
    let mut i: usize = 1;
    while i < n
        invariant
            1 <= i <= n,
            n == v.len(),
            forall|a: int, b: int|
                0 <= a < b < i ==> #[trigger] display_le(views_of(v@)[a], views_of(v@)[b]),
            forall|d: bool, e: int|
                views_of(v@).filter(#[trigger] with_key(d, e)) == views_of(old(v)@).filter(
                    with_key(d, e),
                ),
        decreases n - i,
    {
        let mut j: usize = i;
        while j > 0 && !le_display(&v[j - 1], &v[j])
            invariant
                0 <= j <= i < n,
                n == v.len(),
                forall|a: int, b: int|
                    0 <= a < b <= i && a != j && b != j ==> #[trigger] display_le(
                        views_of(v@)[a],
                        views_of(v@)[b],
                    ),
                forall|b: int|
                    j < b <= i ==> #[trigger] display_le(views_of(v@)[j as int], views_of(v@)[b]),
                forall|d: bool, e: int|
                    views_of(v@).filter(#[trigger] with_key(d, e)) == views_of(old(v)@).filter(
                        with_key(d, e),
                    ),
            decreases j,
        {
            let ghost s = views_of(v@);
            let moved = v[j].clone();
            let other = v[j - 1].clone();
            v[j - 1] = moved;
            v[j] = other;
            proof {
                assert(views_of(v@) =~= s.update(j - 1, s[j as int]).update(j as int, s[j - 1]));
                assert forall|d: bool, e: int|
                    views_of(v@).filter(#[trigger] with_key(d, e)) == views_of(old(v)@).filter(
                        with_key(d, e),
                    ) by {
                    let p = with_key(d, e);
                    if p(s[j - 1]) && p(s[j as int]) {
                        assert(display_le(s[j - 1], s[j as int]));
                    }
                    lemma_filter_adjacent_swap(s, j - 1, p);
                }
            }
            j -= 1;
        }
        proof {
            let u = views_of(v@);
            assert forall|a: int, b: int| 0 <= a < b <= i implies #[trigger] display_le(
                u[a],
                u[b],
            ) by {
                if b == j && j > 0 {
                    assert(display_le(u[j - 1], u[j as int]));
                    if a < j - 1 {
                        assert(display_le(u[a], u[j - 1]));
                    }
                }
            }
        }
        i += 1;
    }
}

/// The character for a single decimal digit.
pub open spec fn digit_char(d: int) -> char {
    if d == 0 {
        '0'
    } else if d == 1 {
        '1'
    } else if d == 2 {
        '2'
    } else if d == 3 {
        '3'
    } else if d == 4 {
        '4'
    } else if d == 5 {
        '5'
    } else if d == 6 {
        '6'
    } else if d == 7 {
        '7'
    } else if d == 8 {
        '8'
    } else {
        '9'
    }
}

/// The decimal digits of a non-negative number, most significant first.
pub open spec fn spec_dec(n: int) -> Seq<char>
    decreases n,
{
    if n < 10 {
        seq![digit_char(n)]
    } else {
        spec_dec(n / 10).push(digit_char(n % 10))
    }
}

/// A one-character string for a single decimal digit.
fn digit_str(d: u32) -> (r: &'static str)
    requires
        d < 10,
    ensures
        r@ == seq![digit_char(d as int)],
{
    proof {
        reveal_strlit("0");
        reveal_strlit("1");
        reveal_strlit("2");
        reveal_strlit("3");
        reveal_strlit("4");
        reveal_strlit("5");
        reveal_strlit("6");
        reveal_strlit("7");
        reveal_strlit("8");
        reveal_strlit("9");
    }
    let r = if d == 0 {
        "0"
    } else if d == 1 {
        "1"
    } else if d == 2 {
        "2"
    } else if d == 3 {
        "3"
    } else if d == 4 {
        "4"
    } else if d == 5 {
        "5"
    } else if d == 6 {
        "6"
    } else if d == 7 {
        "7"
    } else if d == 8 {
        "8"
    } else {
        "9"
    };
    proof {
        assert(r@ =~= seq![digit_char(d as int)]);
    }
    r
}

/// Render a number in decimal.
pub fn u32_to_string(n: u32) -> (r: String)
    ensures
        r@ == spec_dec(n as int),
    decreases n,
{
    if n < 10 {
        let r = String::from_str(digit_str(n));
        proof {
            assert(r@ =~= spec_dec(n as int));
        }
        r
    } else {
        let mut r = u32_to_string(n / 10);
        r.append(digit_str(n % 10));
        proof {
            assert(r@ =~= spec_dec(n as int));
        }
        r
    }
}

/// The display line of an open quest: `[Daily]` only when the quest is
/// daily, then `[<exp>xp] <name>`.
pub open spec fn spec_display_line(q: QuestV) -> Seq<char> {
    (if q.daily {
        "[Daily]"@
    } else {
        Seq::<char>::empty()
    }) + "["@ + spec_dec(q.exp) + "xp] "@ + q.name
}

/// Render the display line of one quest.
pub fn display_line(q: &Quest) -> (r: String)
    ensures
        r@ == spec_display_line(q@),
{
    let mut out = String::new();
    if q.daily {
        out.append("[Daily]");
    }
    out.append("[");
    let num = u32_to_string(q.exp);
    out.append(num.as_str());
    out.append("xp] ");
    out.append(q.name.as_str());
    proof {
        assert(out@ =~= spec_display_line(q@));
    }
    out
}

/// The totals line of the status display:
/// `Quests Completed <completed> | Exp: <exp>`.
pub open spec fn spec_status_line(p: crate::profile::ProfileV) -> Seq<char> {
    "Quests Completed "@ + spec_dec(p.completed) + " | Exp: "@ + spec_dec(p.exp)
}

/// Render the totals line of a profile.
pub fn status_line(p: &Profile) -> (r: String)
    ensures
        r@ == spec_status_line(p@),
{
    let mut out = String::from_str("Quests Completed ");
    let completed = u32_to_string(p.completed);
    out.append(completed.as_str());
    out.append(" | Exp: ");
    let exp = u32_to_string(p.exp);
    out.append(exp.as_str());
    proof {
        assert(out@ =~= spec_status_line(p@));
    }
    out
}

} // verus!
