//! The engine's parameter containers: a 2-D weight matrix and a 1-D bias
//! vector, with randomized initialization, an in-place gradient-descent
//! update, and a compact text form used by the save format.

use vstd::prelude::*;

verus! {

use crate::fixed::{Fixed, fx_add, fx_sub, fx_mul};
use crate::rng::random_fixed;
use crate::text::{
    digits_of, int_text, parse_usize_s, parse_i64_s, split_on, joined_text, push_digits, push_int,
    parse_usize, parse_i64, split_bytes, lemma_nat_text, lemma_int_text, lemma_int_text_bytes,
    lemma_split_prefix, lemma_split_whole, lemma_split_joined, lemma_digits_of, contains_byte,
    lemma_contains_concat, lemma_joined_free, lemma_joined_push,
};

/// The raw values of a sequence of scalars.
pub open spec fn vals(s: Seq<Fixed>) -> Seq<int> {
    s.map_values(|f: Fixed| f@)
}

/// The mathematical content of a weight matrix: its shape and its entries,
/// row-major.
pub ghost struct WeightV {
    pub rows: int,
    pub cols: int,
    pub vals: Seq<int>,
}

/// The mathematical content of a bias vector.
pub ghost struct BiasV {
    pub vals: Seq<int>,
}

/// Whether every value of a sequence fits the scalar's raw range.
pub open spec fn vals_in_range(vs: Seq<int>) -> bool {
    forall|i: int| 0 <= i < vs.len() ==> i64::MIN <= #[trigger] vs[i] <= i64::MAX
}

/// A well-formed weight matrix: positive shape, exactly one entry per
/// cell, every entry in the scalar's range.
pub open spec fn wf_weight(w: WeightV) -> bool {
    &&& w.rows >= 1
    &&& w.cols >= 1
    &&& w.vals.len() == w.rows * w.cols
    &&& w.rows <= usize::MAX
    &&& w.cols <= usize::MAX
    &&& w.rows * w.cols <= usize::MAX
    &&& vals_in_range(w.vals)
}

/// The entry of `w` at row `r`, column `c`.
pub open spec fn entry(w: WeightV, r: int, c: int) -> int {
    w.vals[r * w.cols + c]
}

/// A well-formed bias vector: at least one entry, every entry in the
/// scalar's range.
pub open spec fn wf_bias(b: BiasV) -> bool {
    &&& b.vals.len() >= 1
    &&& b.vals.len() <= usize::MAX
    &&& vals_in_range(b.vals)
}

/// Every value of a gradient-descent step: each entry moves against the
/// gradient, scaled by the learning rate.
pub open spec fn stepped_vals(v: Seq<int>, grad: Seq<int>, alpha: int) -> Seq<int> {
    Seq::new(v.len(), |i: int| fx_sub(v[i], fx_mul(alpha, grad[i])))
}

/// Row-major flat indices stay inside the value array.
pub proof fn lemma_flat_index(rows: int, cols: int, r: int, c: int)
    requires
        0 <= r < rows,
        0 <= c < cols,
    ensures
        0 <= r * cols + c < rows * cols,
{
    assert(r * cols + c < rows * cols) by (nonlinear_arith)
        requires
            0 <= r < rows,
            0 <= c < cols,
    ;
    assert(r * cols >= 0) by (nonlinear_arith)
        requires
            r >= 0,
            cols > 0,
    ;
}

/// A `(rows, cols)` matrix of scalars, row-major.
pub struct Weight {
    rows: usize,
    cols: usize,
    data: Vec<Fixed>,
}

impl View for Weight {
    type V = WeightV;

    closed spec fn view(&self) -> WeightV {
        WeightV { rows: self.rows as int, cols: self.cols as int, vals: vals(self.data@) }
    }
}

impl Weight {
    /// A matrix taking its entries, row-major, from `data`.
    pub fn from_vec(rows: usize, cols: usize, data: Vec<Fixed>) -> (w: Weight)
        requires
            rows >= 1,
            cols >= 1,
            data@.len() == rows * cols,
        ensures
            w@ == (WeightV { rows: rows as int, cols: cols as int, vals: vals(data@) }),
            wf_weight(w@),
    {
        let n = data.len();
        proof {
            assert(data@.len() == n as int);
            assert(forall|i: int|
                0 <= i < data@.len() ==> vals(data@)[i] == (#[trigger] data@[i])@);
        }
        Weight { rows, cols, data }
    }

    /// The `(rows, cols)` shape.
    pub fn dim(&self) -> (d: (usize, usize))
        ensures
            d.0 as int == self@.rows,
            d.1 as int == self@.cols,
    {
        (self.rows, self.cols)
    }

    /// The entry at row `r`, column `c`.
    pub fn get(&self, r: usize, c: usize) -> (x: Fixed)
        requires
            wf_weight(self@),
            r < self@.rows,
            c < self@.cols,
        ensures
            x@ == entry(self@, r as int, c as int),
    {
        let len = self.data.len();
        proof {
            lemma_flat_index(self@.rows, self@.cols, r as int, c as int);
            assert(self@.vals.len() == self.data@.len());
            assert((r as int) * (self.cols as int) + (c as int) < len as int);
        }
        self.data[r * self.cols + c]
    }

    /// A matrix of the given shape with entries drawn uniformly from
    /// `[min, max)`.
    pub fn random(rows: usize, cols: usize, min: Fixed, max: Fixed) -> (w: Weight)
        requires
            rows >= 1,
            cols >= 1,
            rows * cols <= usize::MAX,
            min@ < max@,
        ensures
            wf_weight(w@),
            w@.rows == rows as int,
            w@.cols == cols as int,
            forall|i: int| 0 <= i < w@.vals.len() ==> min@ <= #[trigger] w@.vals[i] < max@,
    {
        proof {
            assert(rows * cols >= 1) by (nonlinear_arith)
                requires
                    rows >= 1,
                    cols >= 1,
            ;
        }
        let n: usize = rows * cols;
        let mut data: Vec<Fixed> = Vec::new();
        let mut k: usize = 0;
        while k < n
            invariant
                0 <= k <= n,
                data@.len() == k,
                min@ < max@,
                forall|i: int| 0 <= i < k ==> min@ <= (#[trigger] data@[i])@ < max@,
            decreases n - k,
        {
            data.push(random_fixed(min, max));
            k = k + 1;
        }
        let w = Weight { rows, cols, data };
        assert(forall|i: int| 0 <= i < w@.vals.len() ==> #[trigger] w@.vals[i] == data@[i]@);
        w
    }

    /// The zero matrix of the given shape.
    pub fn zeros(rows: usize, cols: usize) -> (w: Weight)
        requires
            rows >= 1,
            cols >= 1,
            rows * cols <= usize::MAX,
        ensures
            wf_weight(w@),
            w@.rows == rows as int,
            w@.cols == cols as int,
            forall|i: int| 0 <= i < w@.vals.len() ==> #[trigger] w@.vals[i] == 0,
    {
        proof {
            assert(rows * cols >= 1) by (nonlinear_arith)
                requires
                    rows >= 1,
                    cols >= 1,
            ;
        }
        let n: usize = rows * cols;
        let mut data: Vec<Fixed> = Vec::new();
        let mut k: usize = 0;
        while k < n
            invariant
                0 <= k <= n,
                data@.len() == k,
                forall|i: int| 0 <= i < k ==> (#[trigger] data@[i])@ == 0,
            decreases n - k,
        {
            data.push(Fixed::zero());
            k = k + 1;
        }
        let w = Weight { rows, cols, data };
        assert(forall|i: int| 0 <= i < w@.vals.len() ==> #[trigger] w@.vals[i] == data@[i]@);
        w
    }

    /// A matrix of the same shape with every entry zero.
    pub fn zeros_like(&self) -> (w: Weight)
        ensures
            w@.rows == self@.rows,
            w@.cols == self@.cols,
            w@.vals == Seq::new(self@.vals.len(), |i: int| 0int),
    {
        let n = self.data.len();
        let mut data: Vec<Fixed> = Vec::new();
        let mut k: usize = 0;
        while k < n
            invariant
                0 <= k <= n,
                data@.len() == k,
                forall|i: int| 0 <= i < k ==> (#[trigger] data@[i])@ == 0,
            decreases n - k,
        {
            data.push(Fixed::zero());
            k = k + 1;
        }
        let w = Weight { rows: self.rows, cols: self.cols, data };
        assert(w@.vals =~= Seq::new(self@.vals.len(), |i: int| 0int));
        w
    }

    /// Add a gradient contribution into this matrix, entry by entry. The
    /// shape must match exactly.
    pub fn accumulate(&mut self, grad: &Weight)
        requires
            old(self)@.rows == grad@.rows,
            old(self)@.cols == grad@.cols,
            old(self)@.vals.len() == grad@.vals.len(),
        ensures
            final(self)@.rows == old(self)@.rows,
            final(self)@.cols == old(self)@.cols,
            final(self)@.vals == crate::computations::vec_add_s(old(self)@.vals, grad@.vals),
    {
        let n: usize = self.data.len();
        let mut updated: Vec<Fixed> = Vec::new();
        let mut k: usize = 0;
        while k < n
            invariant
                0 <= k <= n,
                n == self.data@.len(),
                self == old(self),
                grad@.vals.len() == n,
                updated@.len() == k,
                forall|i: int|
                    0 <= i < k ==> (#[trigger] updated@[i])@ == fx_add(
                        self.data@[i]@,
                        grad.data@[i]@,
                    ),
            decreases n - k,
        {
            let g = grad.data[k];
            let x = self.data[k];
            updated.push(x.add(g));
            k = k + 1;
        }
        self.data = updated;
        assert(final(self)@.vals =~= crate::computations::vec_add_s(old(self)@.vals, grad@.vals));
    }

    /// One gradient-descent step: subtract `alpha` times the gradient,
    /// entry by entry. The gradient's shape must match exactly.
    pub fn update(&mut self, grad: &Weight, alpha: Fixed)
        requires
            old(self)@.rows == grad@.rows,
            old(self)@.cols == grad@.cols,
            old(self)@.vals.len() == grad@.vals.len(),
        ensures
            final(self)@.rows == old(self)@.rows,
            final(self)@.cols == old(self)@.cols,
            final(self)@.vals == stepped_vals(old(self)@.vals, grad@.vals, alpha@),
    {
        let n: usize = self.data.len();
        let mut updated: Vec<Fixed> = Vec::new();
        let mut k: usize = 0;
        while k < n
            invariant
                0 <= k <= n,
                n == self.data@.len(),
                self == old(self),
                grad@.vals.len() == n,
                updated@.len() == k,
                forall|i: int|
                    0 <= i < k ==> (#[trigger] updated@[i])@ == fx_sub(
                        self.data@[i]@,
                        fx_mul(alpha@, grad.data@[i]@),
                    ),
            decreases n - k,
        {
            let g = grad.data[k];
            let x = self.data[k];
            updated.push(x.sub(alpha.mul(g)));
            k = k + 1;
        }
        self.data = updated;
        assert(final(self)@.vals =~= stepped_vals(old(self)@.vals, grad@.vals, alpha@));
    }
}

/// The raw values of a sequence of scalar vectors.
pub open spec fn vecs_view(s: Seq<Vec<Fixed>>) -> Seq<Seq<int>> {
    s.map_values(|v: Vec<Fixed>| vals(v@))
}

/// The mathematical content of a sequence of weight matrices.
pub open spec fn weights_view(s: Seq<Weight>) -> Seq<WeightV> {
    s.map_values(|w: Weight| w@)
}

/// The mathematical content of a sequence of bias vectors.
pub open spec fn biases_view(s: Seq<Bias>) -> Seq<BiasV> {
    s.map_values(|b: Bias| b@)
}

/// The decimal texts of a value sequence.
pub open spec fn int_texts(vs: Seq<int>) -> Seq<Seq<u8>> {
    vs.map_values(|v: int| int_text(v))
}

/// Whether every field parses as a scalar value.
pub open spec fn all_parse_i64(fields: Seq<Seq<u8>>) -> bool {
    forall|i: int| 0 <= i < fields.len() ==> parse_i64_s(#[trigger] fields[i]) is Some
}

/// The values the fields parse to.
pub open spec fn fields_ints(fields: Seq<Seq<u8>>) -> Seq<int> {
    Seq::new(fields.len(), |i: int| parse_i64_s(fields[i]).unwrap() as int)
}

/// The text record of a weight matrix: `rows,cols#v0,v1,...`, row-major.
pub open spec fn weight_line(w: WeightV) -> Seq<u8> {
    digits_of(w.rows as nat) + seq![44u8] + digits_of(w.cols as nat) + seq![35u8] + joined_text(
        int_texts(w.vals),
        44,
    )
}

/// The text record of a bias vector: `len#v0,v1,...`.
pub open spec fn bias_line(b: BiasV) -> Seq<u8> {
    digits_of(b.vals.len()) + seq![35u8] + joined_text(int_texts(b.vals), 44)
}

/// What a weight record parses to, if anything: the declared shape must be
/// positive and must match the number of values exactly.
pub open spec fn parse_weight_line(s: Seq<u8>) -> Option<WeightV> {
    let parts = split_on(s, 35);
    if parts.len() != 2 {
        None
    } else {
        let dims = split_on(parts[0], 44);
        if dims.len() != 2 {
            None
        } else if parse_usize_s(dims[0]) is None || parse_usize_s(dims[1]) is None {
            None
        } else {
            let rows = parse_usize_s(dims[0]).unwrap() as int;
            let cols = parse_usize_s(dims[1]).unwrap() as int;
            let fields = split_on(parts[1], 44);
            if rows >= 1 && cols >= 1 && all_parse_i64(fields) && fields.len() == rows * cols {
                Some(WeightV { rows, cols, vals: fields_ints(fields) })
            } else {
                None
            }
        }
    }
}

/// What a bias record parses to, if anything: the declared length must be
/// positive and must match the number of values exactly.
pub open spec fn parse_bias_line(s: Seq<u8>) -> Option<BiasV> {
    let parts = split_on(s, 35);
    if parts.len() != 2 {
        None
    } else if parse_usize_s(parts[0]) is None {
        None
    } else {
        let len = parse_usize_s(parts[0]).unwrap() as int;
        let fields = split_on(parts[1], 44);
        if len >= 1 && all_parse_i64(fields) && fields.len() == len {
            Some(BiasV { vals: fields_ints(fields) })
        } else {
            None
        }
    }
}

/// No printed numeral contains a newline, a `#`, or a `,`.
proof fn lemma_int_text_free(v: int)
    ensures
        !contains_byte(int_text(v), 10),
        !contains_byte(int_text(v), 35),
        !contains_byte(int_text(v), 44),
{
    lemma_int_text_bytes(v);
}

/// No digit string contains a newline, a `#`, or a `,`.
proof fn lemma_digits_free(n: nat)
    ensures
        !contains_byte(digits_of(n), 10),
        !contains_byte(digits_of(n), 35),
        !contains_byte(digits_of(n), 44),
{
    lemma_digits_of(n);
}

/// The joined value list of an in-range value sequence contains no newline
/// and no `#`.
pub proof fn lemma_vals_text_free(vs: Seq<int>)
    ensures
        !contains_byte(joined_text(int_texts(vs), 44), 10),
        !contains_byte(joined_text(int_texts(vs), 44), 35),
{
    assert forall|i: int| 0 <= i < int_texts(vs).len() implies !contains_byte(
        #[trigger] int_texts(vs)[i],
        10,
    ) by {
        lemma_int_text_free(vs[i]);
    }
    assert forall|i: int| 0 <= i < int_texts(vs).len() implies !contains_byte(
        #[trigger] int_texts(vs)[i],
        35,
    ) by {
        lemma_int_text_free(vs[i]);
    }
    lemma_joined_free(int_texts(vs), 44, 10);
    lemma_joined_free(int_texts(vs), 44, 35);
}

/// A weight record contains no newline byte.
pub proof fn lemma_weight_line_free(w: WeightV)
    ensures
        !contains_byte(weight_line(w), 10),
{
    lemma_digits_free(w.rows as nat);
    lemma_digits_free(w.cols as nat);
    lemma_vals_text_free(w.vals);
    let a = digits_of(w.rows as nat);
    let b = digits_of(w.cols as nat);
    let v = joined_text(int_texts(w.vals), 44);
    lemma_contains_concat(a, seq![44u8], 10);
    lemma_contains_concat(a + seq![44u8], b, 10);
    lemma_contains_concat(a + seq![44u8] + b, seq![35u8], 10);
    lemma_contains_concat(a + seq![44u8] + b + seq![35u8], v, 10);
    assert(!contains_byte(seq![44u8], 10)) by {
        assert(forall|i: int| 0 <= i < 1 ==> seq![44u8][i] == 44u8);
    }
    assert(!contains_byte(seq![35u8], 10)) by {
        assert(forall|i: int| 0 <= i < 1 ==> seq![35u8][i] == 35u8);
    }
}

/// A bias record contains no newline byte.
pub proof fn lemma_bias_line_free(b: BiasV)
    ensures
        !contains_byte(bias_line(b), 10),
{
    lemma_digits_free(b.vals.len());
    lemma_vals_text_free(b.vals);
    let d = digits_of(b.vals.len());
    let v = joined_text(int_texts(b.vals), 44);
    lemma_contains_concat(d, seq![35u8], 10);
    lemma_contains_concat(d + seq![35u8], v, 10);
    assert(!contains_byte(seq![35u8], 10)) by {
        assert(forall|i: int| 0 <= i < 1 ==> seq![35u8][i] == 35u8);
    }
}

/// Parsing a printed weight record recovers the matrix.
pub proof fn lemma_weight_line_round_trip(w: WeightV)
    requires
        wf_weight(w),
    ensures
        parse_weight_line(weight_line(w)) == Some(w),
{
    let a = digits_of(w.rows as nat);
    let b = digits_of(w.cols as nat);
    let v = joined_text(int_texts(w.vals), 44);
    let dim_part = a + seq![44u8] + b;
    lemma_digits_free(w.rows as nat);
    lemma_digits_free(w.cols as nat);
    lemma_vals_text_free(w.vals);
    assert(!contains_byte(dim_part, 35)) by {
        lemma_contains_concat(a, seq![44u8], 35);
        lemma_contains_concat(a + seq![44u8], b, 35);
        assert(!contains_byte(seq![44u8], 35)) by {
            assert(forall|i: int| 0 <= i < 1 ==> seq![44u8][i] == 44u8);
        }
    }
    assert(weight_line(w) =~= dim_part + seq![35u8] + v);
    lemma_split_prefix(dim_part, v, 35);
    lemma_split_whole(v, 35);
    let parts = split_on(weight_line(w), 35);
    assert(parts =~~= seq![dim_part, v]);
    assert(dim_part =~= a + seq![44u8] + b);
    lemma_split_prefix(a, b, 44);
    lemma_split_whole(b, 44);
    let dims = split_on(dim_part, 44);
    assert(dims =~~= seq![a, b]);
    assert(usize::MAX as nat <= u64::MAX as nat);
    lemma_nat_text(w.rows as nat);
    lemma_nat_text(w.cols as nat);
    assert forall|i: int| 0 <= i < int_texts(w.vals).len() implies !contains_byte(
        #[trigger] int_texts(w.vals)[i],
        44,
    ) by {
        lemma_int_text_free(w.vals[i]);
    }
    assert(w.vals.len() >= 1) by (nonlinear_arith)
        requires
            w.vals.len() == w.rows * w.cols,
            w.rows >= 1,
            w.cols >= 1,
    ;
    lemma_split_joined(int_texts(w.vals), 44);
    let fields = split_on(v, 44);
    assert(fields =~~= int_texts(w.vals));
    assert forall|i: int| 0 <= i < fields.len() implies parse_i64_s(#[trigger] fields[i])
        is Some by {
        lemma_int_text(w.vals[i]);
    }
    assert(fields_ints(fields) =~= w.vals) by {
        assert forall|i: int| 0 <= i < fields.len() implies fields_ints(fields)[i] == w.vals[i] by {
            lemma_int_text(w.vals[i]);
        }
    }
    assert(parse_weight_line(weight_line(w)).unwrap() == w);
}

/// Parsing a printed bias record recovers the vector.
pub proof fn lemma_bias_line_round_trip(b: BiasV)
    requires
        wf_bias(b),
    ensures
        parse_bias_line(bias_line(b)) == Some(b),
{
    let d = digits_of(b.vals.len());
    let v = joined_text(int_texts(b.vals), 44);
    lemma_digits_free(b.vals.len());
    lemma_vals_text_free(b.vals);
    assert(bias_line(b) =~= d + seq![35u8] + v);
    lemma_split_prefix(d, v, 35);
    lemma_split_whole(v, 35);
    let parts = split_on(bias_line(b), 35);
    assert(parts =~~= seq![d, v]);
    assert(usize::MAX as nat <= u64::MAX as nat);
    lemma_nat_text(b.vals.len());
    assert forall|i: int| 0 <= i < int_texts(b.vals).len() implies !contains_byte(
        #[trigger] int_texts(b.vals)[i],
        44,
    ) by {
        lemma_int_text_free(b.vals[i]);
    }
    lemma_split_joined(int_texts(b.vals), 44);
    let fields = split_on(v, 44);
    assert(fields =~~= int_texts(b.vals));
    assert forall|i: int| 0 <= i < fields.len() implies parse_i64_s(#[trigger] fields[i])
        is Some by {
        lemma_int_text(b.vals[i]);
    }
    assert(fields_ints(fields) =~= b.vals) by {
        assert forall|i: int| 0 <= i < fields.len() implies fields_ints(fields)[i] == b.vals[i] by {
            lemma_int_text(b.vals[i]);
        }
    }
    assert(parse_bias_line(bias_line(b)).unwrap() == b);
}

/// Append the comma-joined decimal texts of `data` to `out`.
fn push_vals(data: &Vec<Fixed>, out: &mut Vec<u8>)
    ensures
        final(out)@ == old(out)@ + joined_text(int_texts(vals(data@)), 44),
{
    let n = data.len();
    let mut k: usize = 0;
    while k < n
        invariant
            0 <= k <= n,
            n == data@.len(),
            out@ == old(out)@ + joined_text(int_texts(vals(data@.take(k as int))), 44),
        decreases n - k,
    {
        proof {
            let pre = int_texts(vals(data@.take(k as int)));
            let post = int_texts(vals(data@.take(k + 1)));
            assert(post =~= pre.push(int_text(data@[k as int]@)));
            lemma_joined_push(pre, int_text(data@[k as int]@), 44);
        }
        if k > 0 {
            out.push(44);
        }
        push_int(data[k].raw(), out);
        proof {
            assert(out@ =~= old(out)@ + joined_text(int_texts(vals(data@.take(k + 1))), 44));
        }
        k = k + 1;
    }
    proof {
        assert(data@.take(n as int) =~= data@);
    }
}

/// Parse a comma-split field list as scalar values.
fn parse_vals(fields: &Vec<Vec<u8>>) -> (r: Option<Vec<Fixed>>)
    ensures
        match r {
            Some(data) => all_parse_i64(fields.deep_view()) && vals(data@) =~= fields_ints(
                fields.deep_view(),
            ) && data@.len() == fields@.len(),
            None => !all_parse_i64(fields.deep_view()),
        },
{
    let n = fields.len();
    let mut data: Vec<Fixed> = Vec::new();
    let mut k: usize = 0;
    while k < n
        invariant
            0 <= k <= n,
            n == fields@.len(),
            data@.len() == k,
            forall|i: int|
                0 <= i < k ==> parse_i64_s(#[trigger] fields.deep_view()[i]) is Some,
            forall|i: int|
                0 <= i < k ==> (#[trigger] data@[i])@ == parse_i64_s(
                    fields.deep_view()[i],
                ).unwrap() as int,
        decreases n - k,
    {
        proof {
            assert(fields.deep_view()[k as int] == fields@[k as int]@);
        }
        match parse_i64(fields[k].as_slice()) {
            Some(raw) => {
                data.push(Fixed::from_raw(raw));
            },
            None => {
                return None;
            },
        }
        k = k + 1;
    }
    Some(data)
}

impl Weight {
    /// The text record of the matrix.
    pub fn to_text(&self) -> (out: Vec<u8>)
        requires
            wf_weight(self@),
        ensures
            out@ == weight_line(self@),
    {
        let mut out: Vec<u8> = Vec::new();
        push_digits(self.rows as u64, &mut out);
        out.push(44);
        push_digits(self.cols as u64, &mut out);
        out.push(35);
        push_vals(&self.data, &mut out);
        assert(out@ =~= weight_line(self@));
        out
    }

    /// Parse a text record as a matrix; fails on any malformed field or on
    /// a declared shape that does not match the values.
    pub fn from_text(s: &[u8]) -> (r: Option<Weight>)
        ensures
            match r {
                Some(w) => parse_weight_line(s@) == Some(w@) && wf_weight(w@),
                None => parse_weight_line(s@) is None,
            },
    {
        let parts = split_bytes(s, 35);
        if parts.len() != 2 {
            return None;
        }
        proof {
            assert(parts.deep_view()[0] == parts@[0]@);
            assert(parts.deep_view()[1] == parts@[1]@);
        }
        let dims = split_bytes(parts[0].as_slice(), 44);
        if dims.len() != 2 {
            return None;
        }
        proof {
            assert(dims.deep_view()[0] == dims@[0]@);
            assert(dims.deep_view()[1] == dims@[1]@);
        }
        let rows = match parse_usize(dims[0].as_slice()) {
            Some(v) => v,
            None => {
                return None;
            },
        };
        let cols = match parse_usize(dims[1].as_slice()) {
            Some(v) => v,
            None => {
                return None;
            },
        };
        let fields = split_bytes(parts[1].as_slice(), 44);
        let data = match parse_vals(&fields) {
            Some(d) => d,
            None => {
                return None;
            },
        };
        if rows == 0 || cols == 0 {
            return None;
        }
        let nf = fields.len();
        let expected = match rows.checked_mul(cols) {
            Some(p) => p,
            None => {
                proof {
                    assert(fields.deep_view().len() == nf as int);
                    assert(fields.deep_view().len() < rows * cols);
                }
                return None;
            },
        };
        if data.len() != expected {
            return None;
        }
        let w = Weight { rows, cols, data };
        proof {
            assert(w@.vals =~= fields_ints(fields.deep_view()));
            assert(parse_weight_line(s@).unwrap() == w@);
            assert(vals_in_range(w@.vals));
        }
        Some(w)
    }
}

impl Bias {
    /// The text record of the vector.
    pub fn to_text(&self) -> (out: Vec<u8>)
        requires
            wf_bias(self@),
        ensures
            out@ == bias_line(self@),
    {
        let mut out: Vec<u8> = Vec::new();
        push_digits(self.data.len() as u64, &mut out);
        out.push(35);
        push_vals(&self.data, &mut out);
        assert(out@ =~= bias_line(self@));
        out
    }

    /// Parse a text record as a bias vector; fails on any malformed field
    /// or on a declared length that does not match the values.
    pub fn from_text(s: &[u8]) -> (r: Option<Bias>)
        ensures
            match r {
                Some(b) => parse_bias_line(s@) == Some(b@) && wf_bias(b@),
                None => parse_bias_line(s@) is None,
            },
    {
        let parts = split_bytes(s, 35);
        if parts.len() != 2 {
            return None;
        }
        proof {
            assert(parts.deep_view()[0] == parts@[0]@);
            assert(parts.deep_view()[1] == parts@[1]@);
        }
        let len = match parse_usize(parts[0].as_slice()) {
            Some(v) => v,
            None => {
                return None;
            },
        };
        let fields = split_bytes(parts[1].as_slice(), 44);
        let data = match parse_vals(&fields) {
            Some(d) => d,
            None => {
                return None;
            },
        };
        if len == 0 || data.len() != len {
            return None;
        }
        let b = Bias { data };
        proof {
            assert(b@.vals =~= fields_ints(fields.deep_view()));
            assert(parse_bias_line(s@).unwrap() == b@);
            assert(vals_in_range(b@.vals));
        }
        Some(b)
    }
}

/// A bias vector of scalars.
pub struct Bias {
    data: Vec<Fixed>,
}

impl View for Bias {
    type V = BiasV;

    closed spec fn view(&self) -> BiasV {
        BiasV { vals: vals(self.data@) }
    }
}

impl Bias {
    /// A bias vector taking its entries from `data`.
    pub fn from_vec(data: Vec<Fixed>) -> (b: Bias)
        requires
            data@.len() >= 1,
        ensures
            b@ == (BiasV { vals: vals(data@) }),
            wf_bias(b@),
    {
        let n = data.len();
        proof {
            assert(data@.len() == n as int);
            assert(forall|i: int|
                0 <= i < data@.len() ==> vals(data@)[i] == (#[trigger] data@[i])@);
        }
        Bias { data }
    }

    /// The number of entries.
    pub fn len(&self) -> (n: usize)
        ensures
            n as int == self@.vals.len(),
    {
        self.data.len()
    }

    /// The entry at index `i`.
    pub fn get(&self, i: usize) -> (x: Fixed)
        requires
            i < self@.vals.len(),
        ensures
            x@ == self@.vals[i as int],
    {
        self.data[i]
    }

    /// A bias vector of the given length with entries drawn uniformly from
    /// `[min, max)`.
    pub fn random(size: usize, min: Fixed, max: Fixed) -> (b: Bias)
        requires
            size >= 1,
            min@ < max@,
        ensures
            wf_bias(b@),
            b@.vals.len() == size as int,
            forall|i: int| 0 <= i < b@.vals.len() ==> min@ <= #[trigger] b@.vals[i] < max@,
    {
        let mut data: Vec<Fixed> = Vec::new();
        let mut k: usize = 0;
        while k < size
            invariant
                0 <= k <= size,
                data@.len() == k,
                min@ < max@,
                forall|i: int| 0 <= i < k ==> min@ <= (#[trigger] data@[i])@ < max@,
            decreases size - k,
        {
            data.push(random_fixed(min, max));
            k = k + 1;
        }
        let b = Bias { data };
        assert(forall|i: int| 0 <= i < b@.vals.len() ==> #[trigger] b@.vals[i] == data@[i]@);
        b
    }

    /// The entries as a row vector.
    pub fn get_row_vector(&self) -> (r: &Vec<Fixed>)
        ensures
            vals(r@) == self@.vals,
    {
        &self.data
    }

    /// The zero bias vector of the given length.
    pub fn zeros(size: usize) -> (b: Bias)
        requires
            size >= 1,
        ensures
            wf_bias(b@),
            b@.vals.len() == size as int,
            forall|i: int| 0 <= i < b@.vals.len() ==> #[trigger] b@.vals[i] == 0,
    {
        let mut data: Vec<Fixed> = Vec::new();
        let mut k: usize = 0;
        while k < size
            invariant
                0 <= k <= size,
                data@.len() == k,
                forall|i: int| 0 <= i < k ==> (#[trigger] data@[i])@ == 0,
            decreases size - k,
        {
            data.push(Fixed::zero());
            k = k + 1;
        }
        let b = Bias { data };
        assert(forall|i: int| 0 <= i < b@.vals.len() ==> #[trigger] b@.vals[i] == data@[i]@);
        b
    }

    /// A bias vector of the same length with every entry zero.
    pub fn zeros_like(&self) -> (b: Bias)
        ensures
            b@.vals == Seq::new(self@.vals.len(), |i: int| 0int),
    {
        let n = self.data.len();
        let mut data: Vec<Fixed> = Vec::new();
        let mut k: usize = 0;
        while k < n
            invariant
                0 <= k <= n,
                data@.len() == k,
                forall|i: int| 0 <= i < k ==> (#[trigger] data@[i])@ == 0,
            decreases n - k,
        {
            data.push(Fixed::zero());
            k = k + 1;
        }
        let b = Bias { data };
        assert(b@.vals =~= Seq::new(self@.vals.len(), |i: int| 0int));
        b
    }

    /// Add a gradient contribution into this vector, entry by entry. The
    /// length must match exactly.
    pub fn accumulate(&mut self, grad: &Bias)
        requires
            old(self)@.vals.len() == grad@.vals.len(),
        ensures
            final(self)@.vals == crate::computations::vec_add_s(old(self)@.vals, grad@.vals),
    {
        let n: usize = self.data.len();
        let mut updated: Vec<Fixed> = Vec::new();
        let mut k: usize = 0;
        while k < n
            invariant
                0 <= k <= n,
                n == self.data@.len(),
                self == old(self),
                grad@.vals.len() == n,
                updated@.len() == k,
                forall|i: int|
                    0 <= i < k ==> (#[trigger] updated@[i])@ == fx_add(
                        self.data@[i]@,
                        grad.data@[i]@,
                    ),
            decreases n - k,
        {
            let g = grad.data[k];
            let x = self.data[k];
            updated.push(x.add(g));
            k = k + 1;
        }
        self.data = updated;
        assert(final(self)@.vals =~= crate::computations::vec_add_s(old(self)@.vals, grad@.vals));
    }

    /// One gradient-descent step on the bias entries; the gradient's length
    /// must match exactly.
    pub fn update(&mut self, grad: &Bias, alpha: Fixed)
        requires
            old(self)@.vals.len() == grad@.vals.len(),
        ensures
            final(self)@.vals == stepped_vals(old(self)@.vals, grad@.vals, alpha@),
    {
        let n: usize = self.data.len();
        let mut updated: Vec<Fixed> = Vec::new();
        let mut k: usize = 0;
        while k < n
            invariant
                0 <= k <= n,
                n == self.data@.len(),
                self == old(self),
                grad@.vals.len() == n,
                updated@.len() == k,
                forall|i: int|
                    0 <= i < k ==> (#[trigger] updated@[i])@ == fx_sub(
                        self.data@[i]@,
                        fx_mul(alpha@, grad.data@[i]@),
                    ),
            decreases n - k,
        {
            let g = grad.data[k];
            let x = self.data[k];
            updated.push(x.sub(alpha.mul(g)));
            k = k + 1;
        }
        self.data = updated;
        assert(final(self)@.vals =~= stepped_vals(old(self)@.vals, grad@.vals, alpha@));
    }
}

} // verus!
