//! Transform sizes: the smallest number of the form 2^x 3^y 5^z that is at least n.
use vstd::prelude::*;

verus! {

pub open spec fn pw(b: int, e: nat) -> int
    decreases e,
{
    if e == 0 {
        1
    } else {
        b * pw(b, (e - 1) as nat)
    }
}

/// 2^x 3^y 5^z.
pub open spec fn smooth(x: nat, y: nat, z: nat) -> int {
    (pw(2, x) * pw(3, y)) * pw(5, z)
}

proof fn lemma_pw_pos(b: int, e: nat)
    requires
        b >= 1,
    ensures
        pw(b, e) >= 1,
    decreases e,
{
    if e > 0 {
        lemma_pw_pos(b, (e - 1) as nat);
        assert(b * pw(b, (e - 1) as nat) >= 1) by (nonlinear_arith)
            requires
                b >= 1,
                pw(b, (e - 1) as nat) >= 1,
        ;
    }
}

proof fn lemma_pw_mono(b: int, e1: nat, e2: nat)
    requires
        b >= 1,
        e1 <= e2,
    ensures
        pw(b, e1) <= pw(b, e2),
    decreases e2,
{
    if e1 < e2 {
        lemma_pw_mono(b, e1, (e2 - 1) as nat);
        lemma_pw_pos(b, (e2 - 1) as nat);
        let p = pw(b, (e2 - 1) as nat);
        assert(p <= b * p) by (nonlinear_arith)
            requires
                b >= 1,
                p >= 1,
        ;
    }
}

proof fn lemma_smooth_pos(x: nat, y: nat, z: nat)
    ensures
        smooth(x, y, z) >= 1,
        smooth(x, y, z) >= pw(2, x),
        smooth(x, y, z) >= pw(2, x) * pw(3, y),
{
    lemma_pw_pos(2, x);
    lemma_pw_pos(3, y);
    lemma_pw_pos(5, z);
    let (p, q, r) = (pw(2, x), pw(3, y), pw(5, z));
    assert(p * q >= p && p * q >= 1 && (p * q) * r >= p * q) by (nonlinear_arith)
        requires
            p >= 1,
            q >= 1,
            r >= 1,
    ;
}

/// Every 2^x 3^y 5^z with `z` at least `k` is at least `b` times 5^k, for `b` the 2^x 3^y part.
proof fn lemma_five_tail(x: nat, y: nat, k: nat, z: nat)
    requires
        k <= z,
    ensures
        smooth(x, y, z) >= smooth(x, y, k),
{
    lemma_pw_mono(5, k, z);
    lemma_pw_pos(2, x);
    lemma_pw_pos(3, y);
    let b = pw(2, x) * pw(3, y);
    assert(b >= 1) by (nonlinear_arith)
        requires
            pw(2, x) >= 1,
            pw(3, y) >= 1,
            b == pw(2, x) * pw(3, y),
    ;
    let (u, v) = (pw(5, k), pw(5, z));
    assert(b * u <= b * v) by (nonlinear_arith)
        requires
            b >= 1,
            u <= v,
    ;
}

proof fn lemma_three_tail(x: nat, j: nat, y: nat, z: nat)
    requires
        j <= y,
    ensures
        smooth(x, y, z) >= pw(2, x) * pw(3, j),
{
    lemma_pw_mono(3, j, y);
    lemma_pw_pos(2, x);
    lemma_pw_pos(3, j);
    lemma_pw_pos(5, z);
    let (p, u, v, r) = (pw(2, x), pw(3, j), pw(3, y), pw(5, z));
    lemma_pw_pos(3, y);
    assert(p * u <= p * v) by (nonlinear_arith)
        requires
            p >= 1,
            u <= v,
    ;
    assert(p * v <= (p * v) * r) by (nonlinear_arith)
        requires
            p >= 1,
            v >= 1,
            r >= 1,
    ;
}

proof fn lemma_two_tail(i: nat, x: nat, y: nat, z: nat)
    requires
        i <= x,
    ensures
        smooth(x, y, z) >= pw(2, i),
{
    lemma_pw_mono(2, i, x);
    lemma_smooth_pos(x, y, z);
}

/// The smallest 2^x 3^y 5^z that is at least `n` (1 for `n` up to 1): a
/// length that a fast Fourier transform handles well.
pub fn next_5smooth(n: usize) -> (r: usize)
    requires
        n <= usize::MAX / 4 + 1,
    ensures
        exists|x: nat, y: nat, z: nat| r == #[trigger] smooth(x, y, z),
        r >= n,
        forall|x: nat, y: nat, z: nat| #[trigger] smooth(x, y, z) >= n ==> r <= smooth(x, y, z),
{
    if n <= 1 {
        proof {
            assert(smooth(0, 0, 0) == 1);
            assert forall|x: nat, y: nat, z: nat| #[trigger] smooth(x, y, z) >= n implies 1 <= smooth(x, y, z) by {
                lemma_smooth_pos(x, y, z);
            }
        }
        return 1;
    }
    // the smallest power of two at least n
    let mut p: usize = 1;
    let ghost mut e: nat = 0;
    while p < n
        invariant
            p == pw(2, e),
            1 <= p,
            p == 1 || p / 2 < n,
            2 <= n <= usize::MAX / 4 + 1,
        decreases 2 * n - p,
    {
        p = p * 2;
        proof {
            e = e + 1;
        }
    }
    let mut best = p;
    let ghost mut bx: nat = e;
    let ghost mut by: nat = 0;
    let ghost mut bz: nat = 0;
    proof {
        assert(smooth(e, 0, 0) == p);
        assert(best <= usize::MAX / 2);
    }
    let mut a: usize = 1;
    let ghost mut i: nat = 0;
    let mut more_a = true;
    while more_a
        invariant
            2 <= n <= usize::MAX / 4 + 1,
            best == smooth(bx, by, bz),
            n <= best <= usize::MAX / 2,
            a == pw(2, i),
            a >= 1,
            more_a ==> forall|x: nat, y: nat, z: nat| x < i && #[trigger] smooth(x, y, z) >= n ==> best <= smooth(x, y, z),
            !more_a ==> forall|x: nat, y: nat, z: nat| #[trigger] smooth(x, y, z) >= n ==> best <= smooth(x, y, z),
        decreases (usize::MAX - a) * 2 + (if more_a { 1int } else { 0int }),
    {
        let mut b = a;
        let ghost mut j: nat = 0;
        let mut more_b = true;
        proof {
            assert(pw(3, 0) == 1);
        }
        while more_b
            invariant
                2 <= n <= usize::MAX / 4 + 1,
                best == smooth(bx, by, bz),
                n <= best <= usize::MAX / 2,
                a == pw(2, i),
                b == a * pw(3, j),
                a >= 1,
                b >= 1,
                forall|x: nat, y: nat, z: nat| x < i && #[trigger] smooth(x, y, z) >= n ==> best <= smooth(x, y, z),
                more_b ==> forall|y: nat, z: nat| y < j && #[trigger] smooth(i, y, z) >= n ==> best <= smooth(i, y, z),
                !more_b ==> forall|y: nat, z: nat| #[trigger] smooth(i, y, z) >= n ==> best <= smooth(i, y, z),
            decreases (usize::MAX - b) * 2 + (if more_b { 1int } else { 0int }),
        {
            let mut c = b;
            let ghost mut k: nat = 0;
            let mut more_c = true;
            proof {
                assert(pw(5, 0) == 1);
                assert(c == smooth(i, j, 0));
            }
            while more_c
                invariant
                    2 <= n <= usize::MAX / 4 + 1,
                    best == smooth(bx, by, bz),
                    n <= best <= usize::MAX / 2,
                    a == pw(2, i),
                    b == a * pw(3, j),
                    c == smooth(i, j, k),
                    c >= 1,
                    forall|x: nat, y: nat, z: nat| x < i && #[trigger] smooth(x, y, z) >= n ==> best <= smooth(x, y, z),
                    forall|y: nat, z: nat| y < j && #[trigger] smooth(i, y, z) >= n ==> best <= smooth(i, y, z),
                    more_c ==> forall|z: nat| z < k && #[trigger] smooth(i, j, z) >= n ==> best <= smooth(i, j, z),
                    !more_c ==> forall|z: nat| #[trigger] smooth(i, j, z) >= n ==> best <= smooth(i, j, z),
                decreases (usize::MAX - c) * 2 + (if more_c { 1int } else { 0int }),
            {
                if c >= n && c < best {
                    best = c;
                    proof {
                        bx = i;
                        by = j;
                        bz = k;
                    }
                }
                if c <= usize::MAX / 5 && c * 5 <= best * 2 {
                    proof {
                        let (p2, p3, p5) = (pw(2, i), pw(3, j), pw(5, k));
                        assert((p2 * p3) * (5 * p5) == 5 * ((p2 * p3) * p5)) by (nonlinear_arith);
                        assert(smooth(i, j, k + 1) == 5 * c);
                    }
                    c = c * 5;
                    proof {
                        k = k + 1;
                    }
                } else {
                    proof {
                        assert forall|z: nat| #[trigger] smooth(i, j, z) >= n implies best <= smooth(i, j, z) by {
                            if z > k {
                                lemma_five_tail(i, j, (k + 1) as nat, z);
                                let (p2, p3, p5) = (pw(2, i), pw(3, j), pw(5, k));
                                assert((p2 * p3) * (5 * p5) == 5 * ((p2 * p3) * p5)) by (nonlinear_arith);
                                assert(smooth(i, j, (k + 1) as nat) == 5 * c);
                            }
                        }
                    }
                    more_c = false;
                }
            }
            if b <= usize::MAX / 3 && b * 3 <= best * 2 {
                proof {
                    let (p2, p3) = (pw(2, i), pw(3, j));
                    assert(p2 * (3 * p3) == 3 * (p2 * p3)) by (nonlinear_arith);
                }
                b = b * 3;
                proof {
                    j = j + 1;
                }
            } else {
                proof {
                    assert forall|y: nat, z: nat| #[trigger] smooth(i, y, z) >= n implies best <= smooth(i, y, z) by {
                        if y > j {
                            lemma_three_tail(i, (j + 1) as nat, y, z);
                            let (p2, p3) = (pw(2, i), pw(3, j));
                            assert(p2 * (3 * p3) == 3 * (p2 * p3)) by (nonlinear_arith);
                        }
                    }
                }
                more_b = false;
            }
        }
        if a <= usize::MAX / 2 && a * 2 <= best * 2 {
            a = a * 2;
            proof {
                i = i + 1;
            }
        } else {
            proof {
                assert forall|x: nat, y: nat, z: nat| #[trigger] smooth(x, y, z) >= n implies best <= smooth(x, y, z) by {
                    if x > i {
                        lemma_two_tail((i + 1) as nat, x, y, z);
                    }
                }
            }
            more_a = false;
        }
    }
    best
}

} // verus!
