use vstd::prelude::*;

use crate::text::chars_of;

verus! {

/// `k` repetitions of "hi".
pub open spec fn hi_run(k: nat) -> Seq<char>
    decreases k,
{
    if k == 0 {
        Seq::empty()
    } else {
        hi_run((k - 1) as nat) + seq!['h', 'i']
    }
}

/// The register word of a register level: `lowlowlow`, `lowlow`, `low`,
/// `mid1`, `mid2`, then one more "hi" for each level above that.
pub open spec fn register_word(level: nat) -> Seq<char> {
    if level == 0 {
        seq!['l', 'o', 'w', 'l', 'o', 'w', 'l', 'o', 'w']
    } else if level == 1 {
        seq!['l', 'o', 'w', 'l', 'o', 'w']
    } else if level == 2 {
        seq!['l', 'o', 'w']
    } else if level == 3 {
        seq!['m', 'i', 'd', '1']
    } else if level == 4 {
        seq!['m', 'i', 'd', '2']
    } else {
        hi_run((level - 4) as nat)
    }
}

pub(crate) proof fn lemma_hi_run(k: nat)
    ensures
        hi_run(k).len() == 2 * k,
        forall|i: int|
            0 <= i < 2 * k ==> #[trigger] hi_run(k)[i] == (if i % 2 == 0 { 'h' } else { 'i' }),
    decreases k,
{
    if k > 0 {
        lemma_hi_run((k - 1) as nat);
        let h = hi_run((k - 1) as nat);
        assert forall|i: int|
            0 <= i < 2 * k implies #[trigger] hi_run(k)[i] == (if i % 2 == 0 { 'h' } else { 'i' }) by {
            if i < 2 * k - 2 {
                assert(hi_run(k)[i] == h[i]);
            }
        }
    }
}

pub(crate) proof fn lemma_register_word_injective(a: nat, b: nat)
    requires
        register_word(a) == register_word(b),
    ensures
        a == b,
{
    lemma_hi_run((a - 4) as nat);
    lemma_hi_run((b - 4) as nat);
    let wa = register_word(a);
    let wb = register_word(b);
    assert(wa.len() == wb.len());
    assert(wa[0] == wb[0]);
    if a <= 4 && b <= 4 {
        if wa.len() == 4 {
            assert(wa[3] == wb[3]);
        }
    }
}

pub(crate) proof fn lemma_register_word_nonempty(level: nat)
    ensures
        register_word(level).len() >= 2,
{
    lemma_hi_run((level - 4) as nat);
}

/// Whether `cs[0..m]` is exactly `word`.
fn prefix_is(cs: &Vec<char>, m: usize, word: &str) -> (r: bool)
    requires
        m <= cs@.len(),
    ensures
        r == (cs@.subrange(0, m as int) == word@),
{
    let w = chars_of(word);
    if w.len() != m {
        return false;
    }
    let mut i: usize = 0;
    while i < m
        invariant
            i <= m,
            m == w@.len(),
            m <= cs@.len(),
            w@ == word@,
            cs@.subrange(0, i as int) == w@.subrange(0, i as int),
        decreases m - i,
    {
        if cs[i] != w[i] {
            assert(cs@.subrange(0, m as int)[i as int] != w@[i as int]);
            return false;
        }
        assert(cs@.subrange(0, i + 1) =~= w@.subrange(0, i + 1));
        i = i + 1;
    }
    assert(w@.subrange(0, m as int) =~= w@);
    true
}

/// Whether `cs[0..m]` is "hi" repeated `m / 2` times, for even `m`.
fn prefix_is_hi_run(cs: &Vec<char>, m: usize) -> (r: bool)
    requires
        m <= cs@.len(),
        m % 2 == 0,
    ensures
        r == (cs@.subrange(0, m as int) == hi_run((m / 2) as nat)),
{
    let mut i: usize = 0;
    while i < m
        invariant
            i <= m,
            i % 2 == 0,
            m % 2 == 0,
            m <= cs@.len(),
            cs@.subrange(0, i as int) == hi_run((i / 2) as nat),
        decreases m - i,
    {
        if cs[i] != 'h' || cs[i + 1] != 'i' {
            proof {
                let k = (m / 2) as nat;
                lemma_hi_run(k);
                if cs@.subrange(0, m as int) == hi_run(k) {
                    assert(cs@.subrange(0, m as int)[i as int] == cs@[i as int]);
                    assert(cs@.subrange(0, m as int)[i + 1] == cs@[i + 1]);
                    assert(hi_run(k)[i as int] == 'h');
                    assert(hi_run(k)[i + 1] == 'i');
                }
            }
            return false;
        }
        assert(cs@.subrange(0, i + 2) =~= cs@.subrange(0, i as int) + seq!['h', 'i']);
        assert((i + 2) / 2 == i / 2 + 1);
        i = i + 2;
    }
    true
}

/// The register level whose word is `cs[0..m]`, if there is one.
pub(crate) fn register_in(cs: &Vec<char>, m: usize) -> (r: Option<usize>)
    requires
        m <= cs@.len(),
    ensures
        match r {
            Some(level) => register_word(level as nat) == cs@.subrange(0, m as int),
            None => forall|level: nat| register_word(level) != cs@.subrange(0, m as int),
        },
{
    let ghost region = cs@.subrange(0, m as int);
    proof {
        reveal_strlit("lowlowlow");
        reveal_strlit("lowlow");
        reveal_strlit("low");
        reveal_strlit("mid1");
        reveal_strlit("mid2");
        assert("lowlowlow"@ =~= register_word(0));
        assert("lowlow"@ =~= register_word(1));
        assert("low"@ =~= register_word(2));
        assert("mid1"@ =~= register_word(3));
        assert("mid2"@ =~= register_word(4));
    }
    if prefix_is(cs, m, "lowlowlow") {
        Some(0)
    } else if prefix_is(cs, m, "lowlow") {
        Some(1)
    } else if prefix_is(cs, m, "low") {
        Some(2)
    } else if prefix_is(cs, m, "mid1") {
        Some(3)
    } else if prefix_is(cs, m, "mid2") {
        Some(4)
    } else if m >= 2 && m % 2 == 0 && prefix_is_hi_run(cs, m) {
        proof {
            assert(2 * (m / 2) == m);
            assert(register_word((m / 2 + 4) as nat) == hi_run((m / 2) as nat));
        }
        Some(m / 2 + 4)
    } else {
        proof {
            assert forall|level: nat| register_word(level) != region by {
                if level >= 5 && register_word(level) == region {
                    let k = (level - 4) as nat;
                    lemma_hi_run(k);
                    assert(region.len() == 2 * k);
                    assert(m / 2 == k);
                }
            }
        }
        None
    }
}

/// Appends the register word of `level`.
pub(crate) fn push_register_word(out: &mut String, level: u16)
    ensures
        final(out)@ == old(out)@ + register_word(level as nat),
{
    let ghost start = out@;
    proof {
        reveal_strlit("lowlowlow");
        reveal_strlit("lowlow");
        reveal_strlit("low");
        reveal_strlit("mid1");
        reveal_strlit("mid2");
        reveal_strlit("hi");
    }
    match level {
        0 => {
            out.append("lowlowlow");
            assert(out@ =~= start + register_word(0));
        },
        1 => {
            out.append("lowlow");
            assert(out@ =~= start + register_word(1));
        },
        2 => {
            out.append("low");
            assert(out@ =~= start + register_word(2));
        },
        3 => {
            out.append("mid1");
            assert(out@ =~= start + register_word(3));
        },
        4 => {
            out.append("mid2");
            assert(out@ =~= start + register_word(4));
        },
        _ => {
            let mut j: u16 = 0;
            while j < level - 4
                invariant
                    level >= 5,
                    j <= level - 4,
                    out@ == start + hi_run(j as nat),
                    "hi"@ == seq!['h', 'i'],
                decreases level - 4 - j,
            {
                out.append("hi");
                proof {
                    assert(hi_run((j + 1) as nat) == hi_run(j as nat) + seq!['h', 'i']);
                    assert(out@ =~= start + hi_run((j + 1) as nat));
                }
                j = j + 1;
            }
        },
    }
}

} // verus!
