//! Colours and the memoised vertical gradients drawn on region borders.
use std::collections::HashMap;
use vstd::arithmetic::div_mod::lemma_fundamental_div_mod_converse;
use vstd::prelude::*;

verus! {

broadcast use vstd::std_specs::hash::group_hash_axioms;

/// A colour with 8-bit red, green, blue and alpha channels.
#[derive(Clone, Copy, Debug, PartialEq, Eq, Structural)]
pub struct Rgba {
    pub r: u8,
    pub g: u8,
    pub b: u8,
    pub a: u8,
}

/// `c` with its alpha channel set to fully opaque.
pub open spec fn opaque(c: Rgba) -> Rgba {
    Rgba { r: c.r, g: c.g, b: c.b, a: 255 }
}

impl Rgba {
    /// An opaque colour from its red, green and blue channels.
    pub fn from_rgb(r: u8, g: u8, b: u8) -> (c: Rgba)
        ensures
            c == (Rgba { r, g, b, a: 255 }),
    {
        Rgba { r, g, b, a: 255 }
    }
}

/// Why a gradient cache could not be made.
#[derive(Clone, Copy, Debug, PartialEq, Eq, Structural)]
pub enum ConfigError {
    /// A gradient needs at least two steps, one for each end.
    TooFewSteps,
}

/// One channel at step `i` of `n`: the blend `((n-1-i) * top + i * bottom) / (n-1)`
/// rounded to the nearest integer, halves upward.
pub open spec fn blend(top: int, bottom: int, i: int, n: int) -> int {
    (2 * (top * (n - 1 - i) + bottom * i) + (n - 1)) / (2 * (n - 1))
}

/// The colour at step `i` of an `n`-step gradient; it is always opaque.
pub open spec fn gradient_step(top: Rgba, bottom: Rgba, i: int, n: int) -> Rgba {
    Rgba {
        r: blend(top.r as int, bottom.r as int, i, n) as u8,
        g: blend(top.g as int, bottom.g as int, i, n) as u8,
        b: blend(top.b as int, bottom.b as int, i, n) as u8,
        a: 255,
    }
}

/// The `n` colours of the gradient from `top` to `bottom`.
pub open spec fn gradient(top: Rgba, bottom: Rgba, n: nat) -> Seq<Rgba> {
    Seq::new(n, |i: int| gradient_step(top, bottom, i, n as int))
}

proof fn lemma_blend_bounds(top: int, bottom: int, i: int, n: int)
    requires
        0 <= top <= 255,
        0 <= bottom <= 255,
        0 <= i < n,
        2 <= n,
    ensures
        0 <= blend(top, bottom, i, n) <= 255,
{
    let d = n - 1;
    let num = 2 * (top * (d - i) + bottom * i) + d;
    assert(0 <= num < 256 * (2 * d)) by (nonlinear_arith)
        requires
            num == 2 * (top * (d - i) + bottom * i) + d,
            0 <= top <= 255, 0 <= bottom <= 255, 0 <= i <= d, 1 <= d;
    assert(0 <= num / (2 * d) < 256) by (nonlinear_arith)
        requires 0 <= num < 256 * (2 * d), 1 <= d;
}

proof fn lemma_blend_ends(top: int, bottom: int, n: int)
    requires
        2 <= n,
    ensures
        blend(top, bottom, 0, n) == top,
        blend(top, bottom, n - 1, n) == bottom,
{
    let d = n - 1;
    assert(2 * (top * (n - 1 - 0) + bottom * 0) + d == top * (2 * d) + d) by (nonlinear_arith)
        requires d == n - 1;
    lemma_fundamental_div_mod_converse(2 * (top * (n - 1 - 0) + bottom * 0) + d, 2 * d, top, d);
    assert(2 * (top * (n - 1 - (n - 1)) + bottom * (n - 1)) + d == bottom * (2 * d) + d)
        by (nonlinear_arith) requires d == n - 1;
    lemma_fundamental_div_mod_converse(
        2 * (top * (n - 1 - (n - 1)) + bottom * (n - 1)) + d,
        2 * d,
        bottom,
        d,
    );
}

fn blend_channel(top: u8, bottom: u8, i: usize, n: usize) -> (c: u8)
    requires
        2 <= n,
        i < n,
    ensures
        c == blend(top as int, bottom as int, i as int, n as int),
{
    proof {
        lemma_blend_bounds(top as int, bottom as int, i as int, n as int);
    }
    let d = (n - 1) as u128;
    let t = top as u128;
    let b = bottom as u128;
    let k = i as u128;
    proof {
        assert(t * (d - k) <= 255 * u64::MAX) by (nonlinear_arith)
            requires t <= 255, d - k <= u64::MAX;
        assert(b * k <= 255 * u64::MAX) by (nonlinear_arith)
            requires b <= 255, k <= u64::MAX;
    }
    let num = 2 * (t * (d - k) + b * k) + d;
    (num / (2 * d)) as u8
}

/// Builds the gradient from `top` to `bottom` in `n` steps.
fn build_gradient(top: Rgba, bottom: Rgba, n: usize) -> (v: Vec<Rgba>)
    requires
        2 <= n,
    ensures
        v@ == gradient(top, bottom, n as nat),
{
    let mut v: Vec<Rgba> = Vec::with_capacity(n);
    let mut i: usize = 0;
    while i < n
        invariant
            2 <= n,
            i <= n,
            v@ == gradient(top, bottom, n as nat).take(i as int),
        decreases n - i,
    {
        let c = Rgba {
            r: blend_channel(top.r, bottom.r, i, n),
            g: blend_channel(top.g, bottom.g, i, n),
            b: blend_channel(top.b, bottom.b, i, n),
            a: 255,
        };
        v.push(c);
        i = i + 1;
        assert(v@ =~= gradient(top, bottom, n as nat).take(i as int));
    }
    assert(v@ =~= gradient(top, bottom, n as nat));
    v
}

/// The first colour of a gradient is its top colour and the last its bottom
/// colour, each made opaque; for opaque ends they are the ends themselves.
pub proof fn lemma_gradient_endpoints(top: Rgba, bottom: Rgba, n: nat)
    requires
        2 <= n,
    ensures
        gradient(top, bottom, n)[0] == opaque(top),
        gradient(top, bottom, n)[n - 1] == opaque(bottom),
        top.a == 255 ==> gradient(top, bottom, n)[0] == top,
        bottom.a == 255 ==> gradient(top, bottom, n)[n - 1] == bottom,
{
    lemma_blend_ends(top.r as int, bottom.r as int, n as int);
    lemma_blend_ends(top.g as int, bottom.g as int, n as int);
    lemma_blend_ends(top.b as int, bottom.b as int, n as int);
}

/// The colour's four channels as one 32-bit number, red highest.
pub open spec fn color_code(c: Rgba) -> nat {
    (((c.r as nat * 256 + c.g as nat) * 256 + c.b as nat) * 256 + c.a as nat) as nat
}

/// The colour whose code is `code`.
pub open spec fn color_of_code(code: nat) -> Rgba {
    Rgba {
        r: (code / 16777216 % 256) as u8,
        g: (code / 65536 % 256) as u8,
        b: (code / 256 % 256) as u8,
        a: (code % 256) as u8,
    }
}

/// The cache key of an ordered pair of colours: the top colour's code in
/// the high half, the bottom colour's code in the low half.
pub open spec fn pair_key(top: Rgba, bottom: Rgba) -> u64 {
    (color_code(top) * 4294967296 + color_code(bottom)) as u64
}

proof fn lemma_digits(x: int, d: int, base: int)
    requires
        0 <= d < base,
    ensures
        (x * base + d) / base == x,
        (x * base + d) % base == d,
{
    lemma_fundamental_div_mod_converse(x * base + d, base, x, d);
}

proof fn lemma_color_code(c: Rgba)
    ensures
        color_code(c) < 4294967296,
        color_of_code(color_code(c)) == c,
{
    let x1 = c.r as int * 256 + c.g as int;
    let x2 = x1 * 256 + c.b as int;
    let x3 = x2 * 256 + c.a as int;
    lemma_digits(x2, c.a as int, 256);
    lemma_digits(x1, c.b as int, 256);
    lemma_digits(c.r as int, c.g as int, 256);
    assert(x3 / 256 / 256 == x3 / 65536) by {
        vstd::arithmetic::div_mod::lemma_div_denominator(x3, 256, 256);
    }
    assert(x3 / 65536 / 256 == x3 / 16777216) by {
        vstd::arithmetic::div_mod::lemma_div_denominator(x3, 65536, 256);
    }
    vstd::arithmetic::div_mod::lemma_small_mod(c.r as nat, 256);
}

/// Distinct ordered pairs get distinct keys: the key gives back both colours.
proof fn lemma_pair_key(top: Rgba, bottom: Rgba)
    ensures
        pair_key(top, bottom) == color_code(top) * 4294967296 + color_code(bottom),
        color_of_code((pair_key(top, bottom) / 4294967296) as nat) == top,
        color_of_code((pair_key(top, bottom) % 4294967296) as nat) == bottom,
{
    lemma_color_code(top);
    lemma_color_code(bottom);
    assert(color_code(top) * 4294967296 + color_code(bottom) <= u64::MAX) by (nonlinear_arith)
        requires color_code(top) < 4294967296, color_code(bottom) < 4294967296;
    lemma_digits(color_code(top) as int, color_code(bottom) as int, 4294967296);
}

fn pair_key_exec(top: Rgba, bottom: Rgba) -> (k: u64)
    ensures
        k == pair_key(top, bottom),
{
    proof {
        lemma_pair_key(top, bottom);
        lemma_color_code(top);
        lemma_color_code(bottom);
    }
    let t = (((top.r as u64 * 256 + top.g as u64) * 256 + top.b as u64) * 256 + top.a as u64);
    let b = (((bottom.r as u64 * 256 + bottom.g as u64) * 256 + bottom.b as u64) * 256
        + bottom.a as u64);
    t * 4294967296 + b
}

/// Gradients already computed, by ordered pair of end colours.
pub struct GradientCache {
    cache: HashMap<u64, Vec<Rgba>>,
    num_steps: usize,
}

impl GradientCache {
    /// The number of colours in each gradient.
    pub closed spec fn steps(&self) -> nat {
        self.num_steps as nat
    }

    /// The ordered pairs `(top, bottom)` whose gradient is stored.
    pub closed spec fn entries(&self) -> Set<(Rgba, Rgba)> {
        Set::new(|p: (Rgba, Rgba)| self.cache@.contains_key(pair_key(p.0, p.1)))
    }

    /// The number of stored gradients.
    pub closed spec fn entry_count(&self) -> nat {
        self.cache@.len()
    }

    /// At least two steps, and each stored gradient is the one its key names.
    pub closed spec fn wf(&self) -> bool {
        &&& self.num_steps >= 2
        &&& forall|k: u64|
            #![trigger self.cache@[k]]
            self.cache@.contains_key(k) ==> self.cache@[k]@ == gradient(
                color_of_code((k / 4294967296) as nat),
                color_of_code((k % 4294967296) as nat),
                self.num_steps as nat,
            )
    }

    /// An empty cache for gradients of `num_steps` colours; fewer than two
    /// steps cannot reach both ends and are refused.
    pub fn new(num_steps: usize) -> (r: Result<GradientCache, ConfigError>)
        ensures
            num_steps < 2 <==> r == Err::<GradientCache, ConfigError>(ConfigError::TooFewSteps),
            r is Ok <==> num_steps >= 2,
            r is Ok ==> ({
                let c = r->Ok_0;
                &&& c.wf()
                &&& c.steps() == num_steps
                &&& c.entries() == Set::<(Rgba, Rgba)>::empty()
                &&& c.entry_count() == 0
            }),
    {
        if num_steps < 2 {
            Err(ConfigError::TooFewSteps)
        } else {
            Ok(GradientCache::with_steps(num_steps))
        }
    }

    /// An empty cache for gradients of `num_steps` colours.
    pub fn with_steps(num_steps: usize) -> (c: GradientCache)
        requires
            num_steps >= 2,
        ensures
            c.wf(),
            c.steps() == num_steps,
            c.entries() == Set::<(Rgba, Rgba)>::empty(),
            c.entry_count() == 0,
    {
        let c = GradientCache { cache: HashMap::new(), num_steps };
        assert(c.entries() =~= Set::<(Rgba, Rgba)>::empty());
        c
    }

    /// The number of colours in each gradient.
    pub fn num_steps(&self) -> (r: usize)
        ensures
            r == self.steps(),
    {
        self.num_steps
    }

    /// The number of stored gradients.
    pub fn len(&self) -> (r: usize)
        ensures
            r == self.entry_count(),
    {
        self.cache.len()
    }

    /// Whether the gradient from `top` to `bottom` is stored.
    pub fn contains(&self, top: Rgba, bottom: Rgba) -> (r: bool)
        ensures
            r == self.entries().contains((top, bottom)),
    {
        let key = pair_key_exec(top, bottom);
        self.cache.contains_key(&key)
    }

    /// The gradient from `top` to `bottom`, computed on first request and
    /// stored under the ordered pair; later requests return a copy of it.
    pub fn get_or_create_gradient(&mut self, top: Rgba, bottom: Rgba) -> (r: Vec<Rgba>)
        requires
            old(self).wf(),
        ensures
            final(self).wf(),
            r@ == gradient(top, bottom, old(self).steps()),
            final(self).steps() == old(self).steps(),
            final(self).entries() == old(self).entries().insert((top, bottom)),
            final(self).entry_count() == old(self).entry_count() + if old(self).entries().contains(
                (top, bottom),
            ) {
                0int
            } else {
                1int
            },
    {
        let key = pair_key_exec(top, bottom);
        proof {
            lemma_pair_key(top, bottom);
        }
        match self.cache.get(&key) {
            Some(g) => {
                let copy = g.clone();
                assert(copy@ =~= g@);
                return copy;
            },
            None => {},
        }
        let g = build_gradient(top, bottom, self.num_steps);
        let stored = g.clone();
        assert(stored@ =~= g@);
        self.cache.insert(key, stored);
        proof {
            assert forall|p: (Rgba, Rgba)|
                self.entries().contains(p) == old(self).entries().insert((top, bottom)).contains(
                    p,
                ) by {
                lemma_pair_key(p.0, p.1);
            }
            assert(self.entries() =~= old(self).entries().insert((top, bottom)));
        }
        g
    }
}

} // verus!
