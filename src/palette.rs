use vstd::prelude::*;

verus! {

/// Absolute difference of two channel values.
pub open spec fn channel_diff(a: u8, b: u8) -> int {
    if a < b { b - a } else { a - b }
}

/// A colour is neutral under `threshold` when all three pairwise channel
/// differences are strictly below it.
pub open spec fn is_neutral(c: [u8; 3], threshold: u8) -> bool {
    &&& channel_diff(c[0], c[1]) < threshold
    &&& channel_diff(c[1], c[2]) < threshold
    &&& channel_diff(c[0], c[2]) < threshold
}

/// Every colour of the list is neutral.
pub open spec fn all_neutral(list: Seq<[u8; 3]>, threshold: u8) -> bool {
    forall|k: int| 0 <= k < list.len() ==> is_neutral(#[trigger] list[k], threshold)
}

/// The largest of the three pairwise channel differences of a colour.
pub open spec fn spread(c: [u8; 3]) -> int {
    let a = channel_diff(c[0], c[1]);
    let b = channel_diff(c[0], c[2]);
    let d = channel_diff(c[1], c[2]);
    if a >= b && a >= d { a } else if b >= d { b } else { d }
}

/// Sum of channel `ch` over the list.
pub open spec fn channel_sum(list: Seq<[u8; 3]>, ch: int) -> int
    decreases list.len(),
{
    if list.len() == 0 {
        0
    } else {
        channel_sum(list.drop_last(), ch) + list.last()[ch] as int
    }
}

/// `sum / n` rounded to the nearest integer, halves away from zero.
pub open spec fn rounded_mean(sum: int, n: int) -> int {
    (2 * sum + n) / (2 * n)
}

/// The per-channel mean of a non-empty list, each channel rounded.
pub open spec fn mean_channel(list: Seq<[u8; 3]>, ch: int) -> int {
    rounded_mean(channel_sum(list, ch), list.len() as int)
}

/// Absolute difference of two channel values.
pub fn get_difference(f: u8, s: u8) -> (r: u8)
    ensures
        r == channel_diff(f, s),
{
    if f < s {
        s - f
    } else {
        f - s
    }
}

proof fn lemma_channel_sum_bound(list: Seq<[u8; 3]>, ch: int)
    requires
        0 <= ch < 3,
    ensures
        0 <= channel_sum(list, ch) <= 255 * list.len(),
    decreases list.len(),
{
    if list.len() > 0 {
        lemma_channel_sum_bound(list.drop_last(), ch);
    }
}

proof fn lemma_rounded_mean_bound(sum: int, n: int)
    requires
        n > 0,
        0 <= sum <= 255 * n,
    ensures
        0 <= rounded_mean(sum, n) <= 255,
{
    assert(0 <= (2 * sum + n) / (2 * n) <= 255) by (nonlinear_arith)
        requires
            n > 0,
            0 <= sum <= 255 * n,
    {
        assert(2 * sum + n < 256 * (2 * n));
    }
}

/// Rounded per-channel mean of the listed colours, or `None` for an empty
/// list. Each colour weighs the same, however often it occurs in an image.
pub fn mean_color(colors: &[[u8; 3]]) -> (r: Option<[u8; 3]>)
    ensures
        r is None <==> colors@.len() == 0,
        r matches Some(c) ==> forall|ch: int| 0 <= ch < 3
            ==> c[ch] as int == #[trigger] mean_channel(colors@, ch),
{
    let n = colors.len();
    if n == 0 {
        return None;
    }
    let mut s0: u128 = 0;
    let mut s1: u128 = 0;
    let mut s2: u128 = 0;
    let mut i: usize = 0;
    while i < n
        invariant
            n == colors@.len(),
            i <= n,
            s0 as int == channel_sum(colors@.subrange(0, i as int), 0),
            s1 as int == channel_sum(colors@.subrange(0, i as int), 1),
            s2 as int == channel_sum(colors@.subrange(0, i as int), 2),
            s0 <= 255 * i,
            s1 <= 255 * i,
            s2 <= 255 * i,
        decreases n - i,
    {
        let c = colors[i];
        proof {
            let pre = colors@.subrange(0, i as int);
            let next = colors@.subrange(0, i as int + 1);
            assert(next.len() == i as int + 1);
            assert(next.drop_last() =~= pre);
            assert(next.last() == c);
        }
        s0 = s0 + c[0] as u128;
        s1 = s1 + c[1] as u128;
        s2 = s2 + c[2] as u128;
        i = i + 1;
    }
    assert(colors@.subrange(0, n as int) =~= colors@);
    proof {
        lemma_channel_sum_bound(colors@, 0);
        lemma_channel_sum_bound(colors@, 1);
        lemma_channel_sum_bound(colors@, 2);
        lemma_rounded_mean_bound(s0 as int, n as int);
        lemma_rounded_mean_bound(s1 as int, n as int);
        lemma_rounded_mean_bound(s2 as int, n as int);
    }
    let d = 2 * n as u128;
    let out: [u8; 3] = [
        ((2 * s0 + n as u128) / d) as u8,
        ((2 * s1 + n as u128) / d) as u8,
        ((2 * s2 + n as u128) / d) as u8,
    ];
    assert(forall|ch: int| 0 <= ch < 3 ==> out[ch] as int == #[trigger] mean_channel(colors@, ch));
    Some(out)
}

/// Whether every listed colour is neutral under `threshold`.
pub fn all_colors_neutral(colors: &[[u8; 3]], threshold: u8) -> (r: bool)
    ensures
        r == all_neutral(colors@, threshold),
{
    let mut i: usize = 0;
    while i < colors.len()
        invariant
            i <= colors@.len(),
            forall|k: int| 0 <= k < i ==> is_neutral(#[trigger] colors@[k], threshold),
        decreases colors@.len() - i,
    {
        let c = colors[i];
        if !(get_difference(c[0], c[1]) < threshold && get_difference(c[1], c[2]) < threshold
            && get_difference(c[0], c[2]) < threshold) {
            assert(!is_neutral(colors@[i as int], threshold));
            return false;
        }
        i = i + 1;
    }
    true
}

/// The largest pairwise channel difference over all listed colours, or
/// `None` for an empty list.
pub fn max_spread(colors: &[[u8; 3]]) -> (r: Option<u8>)
    ensures
        r is None <==> colors@.len() == 0,
        r matches Some(m) ==> {
            &&& forall|k: int| 0 <= k < colors@.len() ==> spread(#[trigger] colors@[k]) <= m
            &&& exists|k: int| 0 <= k < colors@.len() && spread(#[trigger] colors@[k]) == m
        },
{
    let mut best: Option<u8> = None;
    let mut i: usize = 0;
    while i < colors.len()
        invariant
            i <= colors@.len(),
            best is None <==> i == 0,
            best matches Some(m) ==> {
                &&& forall|k: int| 0 <= k < i ==> spread(#[trigger] colors@[k]) <= m
                &&& exists|k: int| 0 <= k < i && spread(#[trigger] colors@[k]) == m
            },
        decreases colors@.len() - i,
    {
        let c = colors[i];
        let a = get_difference(c[0], c[1]);
        let b = get_difference(c[0], c[2]);
        let d = get_difference(c[1], c[2]);
        let s = if a >= b && a >= d {
            a
        } else if b >= d {
            b
        } else {
            d
        };
        assert(s == spread(colors@[i as int]));
        match best {
            Some(m) => {
                if s > m {
                    best = Some(s);
                } else {
                    assert(exists|k: int| 0 <= k < i && spread(#[trigger] colors@[k]) == m);
                }
            },
            None => {
                best = Some(s);
            },
        }
        i = i + 1;
    }
    best
}

/// A single colour that is not neutral fails the grayscale test for the
/// whole list, whatever the other colours are.
pub proof fn lemma_one_chromatic_color_fails(list: Seq<[u8; 3]>, k: int, threshold: u8)
    requires
        0 <= k < list.len(),
        !is_neutral(list[k], threshold),
    ensures
        !all_neutral(list, threshold),
{
}

/// The mean of a list of one colour is that colour.
pub proof fn lemma_mean_of_one_color(list: Seq<[u8; 3]>)
    requires
        list.len() == 1,
    ensures
        forall|ch: int| 0 <= ch < 3 ==> #[trigger] mean_channel(list, ch) == list[0][ch] as int,
{
    assert(list.drop_last() =~= Seq::<[u8; 3]>::empty());
    assert forall|ch: int| 0 <= ch < 3 implies #[trigger] mean_channel(list, ch) == list[0][ch] as int by {
        assert(channel_sum(list.drop_last(), ch) == 0);
        assert(list.last() == list[0]);
        let v = list[0][ch] as int;
        assert(channel_sum(list, ch) == v);
        assert((2 * v + 1) / 2 == v);
        assert(rounded_mean(v, 1) == v);
    }
}

} // verus!
