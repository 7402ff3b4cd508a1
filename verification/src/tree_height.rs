//! How high a balanced tree can be for the number of its nodes.

use crate::tree::TreeNode;
use vstd::arithmetic::mul::lemma_mul_inequality_converse;
use vstd::arithmetic::power::{
    lemma_pow_distributes, lemma_pow_increases_converse, lemma_pow_multiplies, lemma_pow_positive,
    lemma_pow_strictly_increases, pow,
};
use vstd::prelude::*;

verus! {

/// The number of nodes of the sparsest balanced tree of the given height:
/// a root above two such trees, one of them lower by 1 and one by 2.
pub open spec fn min_nodes(height: nat) -> nat
    decreases height,
{
    if height == 0 {
        0
    } else if height == 1 {
        1
    } else {
        1 + min_nodes((height - 1) as nat) + min_nodes((height - 2) as nat)
    }
}

/// The sparsest balanced tree of a greater height has no fewer nodes.
pub proof fn lemma_min_nodes_grows(low: nat, high: nat)
    requires
        low <= high,
    ensures
        min_nodes(low) <= min_nodes(high),
    decreases high,
{
    if low < high {
        lemma_min_nodes_grows(low, (high - 1) as nat);
    }
}

/// A power grows with its base.
pub proof fn lemma_pow_grows_with_base(low: int, high: int, e: nat)
    requires
        0 <= low <= high,
    ensures
        0 <= pow(low, e) <= pow(high, e),
    decreases e,
{
    reveal(pow);
    if e > 0 {
        lemma_pow_grows_with_base(low, high, (e - 1) as nat);
        let x = pow(low, (e - 1) as nat);
        let y = pow(high, (e - 1) as nat);
        assert(0 <= low * x <= high * y) by (nonlinear_arith)
            requires
                0 <= low <= high,
                0 <= x <= y,
        ;
    }
}

/// With each level the sparsest balanced tree grows by the factor 21/13 at
/// least: `21^h <= (min_nodes(h) + 1) * 13^h`.
pub proof fn lemma_min_nodes_ratio(height: nat)
    ensures
        pow(21, height) <= (min_nodes(height) + 1) * pow(13, height),
    decreases height,
{
    reveal(pow);
    if height == 0 {
        assert(pow(21, 0) == 1 && pow(13, 0) == 1);
    } else if height == 1 {
        assert(pow(21, 0) == 1 && pow(13, 0) == 1);
        assert(pow(21, 1) == 21 && pow(13, 1) == 13);
    } else {
        let h1 = (height - 1) as nat;
        let h2 = (height - 2) as nat;
        lemma_min_nodes_ratio(h1);
        lemma_min_nodes_ratio(h2);
        lemma_pow_positive(21, h2);
        let a = pow(21, h2);
        let b = pow(13, h2);
        let m1 = (min_nodes(h1) + 1) as int;
        let m2 = (min_nodes(h2) + 1) as int;
        assert(pow(21, h1) == 21 * a && pow(21, height) == 21 * (21 * a));
        assert(pow(13, h1) == 13 * b && pow(13, height) == 13 * (13 * b));
        assert(min_nodes(height) + 1 == m1 + m2);
        assert(21 * (21 * a) <= (m1 + m2) * (13 * (13 * b))) by (nonlinear_arith)
            requires
                21 * a <= m1 * (13 * b),
                a <= m2 * b,
                a >= 0,
        ;
    }
}

/// The sixteenth powers of 13 and of 21, and the eleventh of 2.
proof fn lemma_sixteenth_powers()
    ensures
        pow(2, 11) == 2048,
        pow(13, 16) == 665416609183179841,
        pow(21, 16) == 1430568690241985328321,
{
    reveal_with_fuel(pow, 12);
    lemma_pow_multiplies(13, 2, 2);
    lemma_pow_multiplies(13, 4, 2);
    lemma_pow_multiplies(13, 8, 2);
    assert(pow(13, 2) == 169);
    assert(pow(13, 4) == 28561);
    assert(pow(13, 8) == 815730721);
    lemma_pow_multiplies(21, 2, 2);
    lemma_pow_multiplies(21, 4, 2);
    lemma_pow_multiplies(21, 8, 2);
    assert(pow(21, 2) == 441);
    assert(pow(21, 4) == 194481);
    assert(pow(21, 8) == 37822859361);
}

/// The sparsest balanced tree of height `h` has more than `2^(11h/16)`
/// nodes, less one: `2^(11h) <= (min_nodes(h) + 1)^16`.
pub proof fn lemma_min_nodes_log(height: nat)
    ensures
        pow(2, 11 * height) <= pow(min_nodes(height) + 1 as int, 16),
{
    let m = (min_nodes(height) + 1) as int;
    let a = pow(21, height);
    let b = pow(13, height);
    let c = pow(21, 16);
    let d = pow(13, 16);
    lemma_sixteenth_powers();
    lemma_min_nodes_ratio(height);
    lemma_pow_positive(21, height);
    lemma_pow_positive(13, height);
    // 21^(16h) <= m^16 * 13^(16h)
    lemma_pow_grows_with_base(a, m * b, 16);
    lemma_pow_distributes(m, b, 16);
    lemma_pow_multiplies(21, height, 16);
    lemma_pow_multiplies(21, 16, height);
    lemma_pow_multiplies(13, height, 16);
    lemma_pow_multiplies(13, 16, height);
    assert(pow(c, height) <= pow(m, 16) * pow(d, height));
    // 2^(11h) * 13^(16h) <= 21^(16h)
    lemma_pow_grows_with_base(2048 * d, c, height);
    lemma_pow_distributes(2048, d, height);
    lemma_pow_multiplies(2, 11, height);
    assert(pow(2, 11 * height) * pow(d, height) <= pow(c, height));
    lemma_pow_positive(d, height);
    lemma_mul_inequality_converse(pow(2, 11 * height), pow(m, 16), pow(d, height));
}

impl<T: Ord> TreeNode<T> {
    /// A balanced tree has at least as many nodes as the sparsest balanced
    /// tree of its height.
    pub proof fn lemma_balanced_size(self)
        requires
            self.spec_is_balanced(),
        ensures
            min_nodes(self.spec_height()) <= self.size(),
        decreases self,
    {
        match self {
            TreeNode::Leaf => {},
            TreeNode::Node(_, left, right) => {
                left.lemma_balanced_size();
                right.lemma_balanced_size();
                let h = self.spec_height();
                if h >= 2 {
                    lemma_min_nodes_grows((h - 2) as nat, left.spec_height());
                    lemma_min_nodes_grows((h - 2) as nat, right.spec_height());
                }
            },
        }
    }

    /// A balanced tree of height `h` with `n` nodes has `2^(11h) <= (n + 1)^16`:
    /// `h` is at most `16/11 * log2(n + 1)`. Where a `u64` can count the
    /// nodes, `h` is at most 93, and at most `1.44 * log2(n + 2)` rounded up:
    /// `2^(100 * (h - 1)) < (n + 2)^144`.
    pub proof fn lemma_balanced_height(self)
        requires
            self.spec_is_balanced(),
        ensures
            pow(2, 11 * self.spec_height()) <= pow(self.size() + 1 as int, 16),
            self.size() <= u64::MAX ==> self.spec_height() <= 93,
            self.size() <= u64::MAX && self.spec_height() >= 1 ==> pow(
                2,
                (100 * (self.spec_height() - 1)) as nat,
            ) < pow(self.size() + 2 as int, 144),
    {
        let h = self.spec_height();
        let n = self.size() as int;
        self.lemma_balanced_size();
        lemma_min_nodes_log(h);
        lemma_pow_grows_with_base(min_nodes(h) + 1 as int, n + 1, 16);
        if n <= u64::MAX {
            // (n + 1)^16 <= (2^64)^16 = 2^1024
            lemma_two_to_64();
            lemma_pow_grows_with_base(n + 1, pow(2, 64), 16);
            lemma_pow_multiplies(2, 64, 16);
            lemma_pow_increases_converse(2, 11 * h, 1024);
            if h >= 1 {
                // 2^(100(h - 1)) < 2^(99h) <= (n + 1)^144 <= (n + 2)^144
                lemma_pow_strictly_increases(2, (100 * (h - 1)) as nat, 99 * h);
                lemma_pow_positive(2, 11 * h);
                lemma_pow_grows_with_base(pow(2, 11 * h), pow(n + 1, 16), 9);
                lemma_pow_multiplies(2, 11 * h, 9);
                lemma_pow_multiplies(n + 1, 16, 9);
                lemma_pow_grows_with_base(n + 1, n + 2, 144);
            }
        }
    }
}

/// The 64th power of 2.
proof fn lemma_two_to_64()
    ensures
        pow(2, 64) == 0x1_0000_0000_0000_0000,
{
    reveal_with_fuel(pow, 9);
    lemma_pow_multiplies(2, 8, 8);
    assert(pow(2, 8) == 256);
    assert(pow(256, 8) == 0x1_0000_0000_0000_0000);
}

} // verus!
