//! Low-rank adapters.

use crate::error::{InferenceError, InferenceResult};
use crate::exact::Valued;
use crate::matrix::Matrix;
use crate::names::NamedMap;
use crate::number::Single;
use crate::samples::copy_samples;
use crate::text::{join, join3, same_text};
use vstd::prelude::*;
use vstd::string::*;

verus! {

/// The arithmetic on samples that adapters need. Nothing is required of what
/// the operations return.
pub trait AdapterMath {
    /// The sum of the products of two signals of one length.
    fn dot(&self, a: &[Single], b: &[Single]) -> Single;

    /// `a * b`.
    fn product(&self, a: Single, b: Single) -> Single;

    /// `a + b`.
    fn sum(&self, a: Single, b: Single) -> Single;

    /// `alpha / rank`.
    fn ratio(&self, alpha: Single, rank: usize) -> Single;
}

/// The bit pattern of 1.0.
pub const ONE_BITS: u32 = 0x3f80_0000;

/// The bit pattern of 16.0.
pub const SIXTEEN_BITS: u32 = 0x4180_0000;

/// Configuration of an adapter.
#[derive(Debug, Clone)]
pub struct LoraConfig {
    /// The rank of the matrices.
    pub rank: usize,
    /// What the scaling is made of.
    pub alpha: Single,
    /// Dropout rate.
    pub dropout: Single,
    /// The modules that the adapter is for.
    pub target_modules: Vec<String>,
}

impl Default for LoraConfig {
    fn default() -> (r: Self)
        ensures
            r.is_default(),
    {
        let mut target_modules: Vec<String> = Vec::new();
        target_modules.push("q_proj".to_owned());
        target_modules.push("v_proj".to_owned());
        LoraConfig {
            rank: 8,
            alpha: Single { bits: SIXTEEN_BITS },
            dropout: Single { bits: 0 },
            target_modules,
        }
    }
}

impl LoraConfig {
    /// Whether this is the default configuration.
    pub open spec fn is_default(&self) -> bool {
        &&& self.rank == 8
        &&& self.alpha.bits == SIXTEEN_BITS
        &&& self.dropout.bits == 0
        &&& self.target_modules@.len() == 2
        &&& self.target_modules@[0]@ == "q_proj"@
        &&& self.target_modules@[1]@ == "v_proj"@
    }

    /// The default configuration.
    pub fn new() -> (r: Self)
        ensures
            r.is_default(),
    {
        Self::default()
    }

    /// Sets the rank.
    pub fn rank(self, rank: usize) -> (r: Self)
        ensures
            r == (LoraConfig { rank, ..self }),
    {
        LoraConfig { rank, ..self }
    }

    /// Sets alpha.
    pub fn alpha(self, alpha: Single) -> (r: Self)
        ensures
            r == (LoraConfig { alpha, ..self }),
    {
        LoraConfig { alpha, ..self }
    }

    /// Sets the dropout rate.
    pub fn dropout(self, dropout: Single) -> (r: Self)
        ensures
            r == (LoraConfig { dropout, ..self }),
    {
        LoraConfig { dropout, ..self }
    }

    /// Adds a module that the adapter is for.
    pub fn add_target_module(self, module: String) -> (r: Self)
        ensures
            r.rank == self.rank,
            r.alpha == self.alpha,
            r.dropout == self.dropout,
            r.target_modules@ == self.target_modules@.push(module),
    {
        let mut target_modules: Vec<String> = self.target_modules;
        target_modules.push(module);
        LoraConfig { target_modules, ..self }
    }

    /// Whether `r` can be the scaling.
    pub open spec fn is_scaling<A: AdapterMath>(&self, math: &A, r: Single) -> bool {
        call_ensures(A::ratio, (math, self.alpha, self.rank), r)
    }

    /// The scaling, alpha per rank.
    pub fn scaling<A: AdapterMath>(&self, math: &A) -> (r: Single)
        ensures
            self.is_scaling(math, r),
    {
        math.ratio(self.alpha, self.rank)
    }
}

/// An adapter: two matrices of one rank.
#[derive(Debug)]
pub struct LoraAdapter {
    /// The first matrix, a row for each rank.
    pub lora_a: Matrix,
    /// The second matrix, a column for each rank.
    pub lora_b: Matrix,
    /// The scaling.
    pub scaling: Single,
    /// The name.
    pub name: String,
}

/// Whether `out` holds the products of a signal with the rows of a matrix.
pub open spec fn is_product<A: AdapterMath>(
    math: A,
    input: Seq<Single>,
    m: Matrix,
    out: Seq<Single>,
) -> bool {
    &&& out.len() == m.height()
    &&& forall|i: int|
        0 <= i < out.len() ==> is_dot(math, input, m.line(i), #[trigger] out[i])
}

/// Whether `r` is the sum of the products of two signals.
pub open spec fn is_dot<A: AdapterMath>(
    math: A,
    a: Seq<Single>,
    b: Seq<Single>,
    r: Single,
) -> bool {
    exists|x: &[Single], y: &[Single]|
        #![trigger x@, y@]
        x@ == a && y@ == b && call_ensures(A::dot, (&math, x, y), r)
}

fn products<A: AdapterMath>(math: &A, input: &[Single], m: &Matrix) -> (r: Vec<Single>)
    requires
        m.wf(),
    ensures
        is_product(*math, input@, *m, r@),
{
    let mut out: Vec<Single> = Vec::new();
    let mut i: usize = 0;
    while i < m.nrows()
        invariant
            i <= m.height(),
            m.wf(),
            out@.len() == i,
            forall|k: int|
                0 <= k < i ==> is_dot(*math, input@, m.line(k), #[trigger] out@[k]),
        decreases m.height() - i,
    {
        let row: &[Single] = m.row(i);
        let v: Single = math.dot(input, row);
        assert(input@ == input@ && row@ == m.line(i as int));
        assert(is_dot(*math, input@, m.line(i as int), v));
        out.push(v);
        i += 1;
    }
    out
}

impl LoraAdapter {
    /// Both matrices are tables of one rank.
    pub open spec fn wf(&self) -> bool {
        &&& self.lora_a.wf()
        &&& self.lora_b.wf()
        &&& self.lora_a.height() == self.lora_b.width()
    }

    /// An adapter from its matrices, where they have one rank.
    pub fn new(lora_a: Matrix, lora_b: Matrix, scaling: Single, name: String) -> (r:
        InferenceResult<Self>)
        requires
            lora_a.wf(),
            lora_b.wf(),
        ensures
            if lora_a.height() == lora_b.width() {
                &&& r == Ok::<Self, InferenceError>(LoraAdapter { lora_a, lora_b, scaling, name })
                &&& r->Ok_0.wf()
            } else {
                r matches Err(InferenceError::DimensionMismatch { expected, got }) && expected
                    == lora_a.height() && got == lora_b.width()
            },
    {
        let rank_a: usize = lora_a.nrows();
        let rank_b: usize = lora_b.ncols();
        if rank_a != rank_b {
            return Err(InferenceError::DimensionMismatch { expected: rank_a, got: rank_b });
        }
        Ok(LoraAdapter { lora_a, lora_b, scaling, name })
    }

    /// The rank.
    pub fn rank(&self) -> (n: usize)
        ensures
            n == self.lora_a.height(),
    {
        self.lora_a.nrows()
    }

    /// The number of samples that go in.
    pub fn in_features(&self) -> (n: usize)
        ensures
            n == self.lora_a.width(),
    {
        self.lora_a.ncols()
    }

    /// The number of samples that come out.
    pub fn out_features(&self) -> (n: usize)
        ensures
            n == self.lora_b.height(),
    {
        self.lora_b.nrows()
    }

    /// Whether `out` is what the adapter makes of a signal: its product with
    /// both matrices, scaled, and added to the signal where it is as long.
    pub open spec fn is_adapted<A: AdapterMath>(
        &self,
        math: A,
        input: Seq<Single>,
        out: Seq<Single>,
    ) -> bool {
        exists|hidden: Seq<Single>, raw: Seq<Single>|
            {
                &&& #[trigger] is_product(math, input, self.lora_a, hidden)
                &&& #[trigger] is_product(math, hidden, self.lora_b, raw)
                &&& out.len() == raw.len()
                &&& forall|i: int|
                    0 <= i < out.len() ==> is_mixed(
                        math,
                        raw[i],
                        self.scaling,
                        if raw.len() == input.len() {
                            Some(input[i])
                        } else {
                            None
                        },
                        #[trigger] out[i],
                    )
            }
    }

    /// Applies the adapter to a signal.
    pub fn apply<A: AdapterMath>(&self, math: &A, input: &[Single]) -> (r: InferenceResult<
        Vec<Single>,
    >)
        requires
            self.wf(),
        ensures
            if input@.len() == self.lora_a.width() {
                &&& r is Ok
                &&& r->Ok_0@.len() == self.lora_b.height()
                &&& self.is_adapted(*math, input@, r->Ok_0@)
            } else {
                r matches Err(InferenceError::DimensionMismatch { expected, got }) && expected
                    == self.lora_a.width() && got == input@.len()
            },
    {
        if input.len() != self.in_features() {
            return Err(
                InferenceError::DimensionMismatch {
                    expected: self.in_features(),
                    got: input.len(),
                },
            );
        }
        let hidden: Vec<Single> = products(math, input, &self.lora_a);
        let raw: Vec<Single> = products(math, hidden.as_slice(), &self.lora_b);
        let residual: bool = raw.len() == input.len();
        let mut out: Vec<Single> = Vec::new();
        let mut i: usize = 0;
        while i < raw.len()
            invariant
                i <= raw@.len(),
                residual == (raw@.len() == input@.len()),
                out@.len() == i,
                forall|k: int|
                    0 <= k < i ==> is_mixed(
                        *math,
                        raw@[k],
                        self.scaling,
                        if raw@.len() == input@.len() {
                            Some(input@[k])
                        } else {
                            None
                        },
                        #[trigger] out@[k],
                    ),
            decreases raw@.len() - i,
        {
            let scaled: Single = math.product(raw[i], self.scaling);
            let v: Single = if residual {
                math.sum(scaled, input[i])
            } else {
                scaled
            };
            out.push(v);
            i += 1;
        }
        assert(is_product(*math, input@, self.lora_a, hidden@));
        assert(is_product(*math, hidden@, self.lora_b, raw@));
        Ok(out)
    }

    /// Whether `r` is what comes of adapting every row of a table: the adapted
    /// rows, where they can be laid out as a table.
    pub open spec fn is_adapted_table<A: AdapterMath>(
        &self,
        math: A,
        inputs: Matrix,
        r: InferenceResult<Matrix>,
    ) -> bool {
        if inputs.width() == self.lora_a.width() {
            match crate::matrix::shape_fault(
                inputs.height() * self.lora_b.height(),
                inputs.height() as usize,
                self.lora_b.height() as usize,
            ) {
                None => {
                    &&& r is Ok
                    &&& r->Ok_0.wf()
                    &&& r->Ok_0.height() == inputs.height()
                    &&& r->Ok_0.width() == self.lora_b.height()
                    &&& forall|i: int|
                        0 <= i < inputs.height() ==> self.is_adapted(
                            math,
                            inputs.line(i),
                            #[trigger] r->Ok_0.line(i),
                        )
                },
                Some(cause) => r matches Err(InferenceError::ForwardError(t)) && t@
                    == "Failed to stack LoRA outputs: "@ + cause,
            }
        } else {
            r matches Err(InferenceError::DimensionMismatch { expected, got }) && expected
                == self.lora_a.width() && got == inputs.width()
        }
    }

    /// Applies the adapter to every row of a table that has rows.
    pub fn apply_batch<A: AdapterMath>(&self, math: &A, inputs: &Matrix) -> (r: InferenceResult<
        Matrix,
    >)
        requires
            self.wf(),
            inputs.wf(),
            inputs.height() > 0,
            inputs.height() * self.lora_b.height() <= usize::MAX,
        ensures
            self.is_adapted_table(*math, *inputs, r),
    {
        let n: usize = inputs.nrows();
        let width: usize = self.out_features();
        let mut flat: Vec<Single> = Vec::new();
        let ghost mut rows: Seq<Seq<Single>> = Seq::empty();
        let mut i: usize = 0;
        while i < n
            invariant
                i <= n,
                n == inputs.height(),
                n > 0,
                self.wf(),
                inputs.wf(),
                width == self.lora_b.height(),
                i > 0 ==> inputs.width() == self.lora_a.width(),
                rows.len() == i,
                flat@.len() == i * width,
                forall|k: int| 0 <= k < i ==> (#[trigger] rows[k]).len() == width,
                forall|k: int|
                    0 <= k < i ==> self.is_adapted(*math, inputs.line(k), #[trigger] rows[k]),
                forall|k: int|
                    0 <= k < i ==> holds_row(flat@, width as int, k, #[trigger] rows[k]),
            decreases n - i,
        {
            let mut row: Vec<Single> = match self.apply(math, inputs.row(i)) {
                Ok(row) => row,
                Err(e) => {
                    return Err(e);
                },
            };
            let ghost before = flat@;
            let ghost done = rows;
            let ghost fresh = row@;
            flat.append(&mut row);
            proof {
                rows = done.push(fresh);
                assert((i + 1) * width == i * width + width) by (nonlinear_arith);
                assert forall|k: int| 0 <= k < i + 1 implies holds_row(
                    flat@,
                    width as int,
                    k,
                    #[trigger] rows[k],
                ) by {
                    if k < i {
                        assert(rows[k] == done[k]);
                        assert(flat@.subrange(k * width, k * width + width) =~= before.subrange(
                            k * width,
                            k * width + width,
                        ));
                    } else {
                        assert(0 <= k * width) by (nonlinear_arith)
                            requires
                                0 <= k,
                                0 <= width,
                        ;
                        assert(flat@.subrange(k * width, k * width + width) =~= fresh);
                    }
                }
            }
            i += 1;
        }
        match Matrix::from_shape_vec(n, width, flat) {
            Ok(m) => {
                proof {
                    assert forall|k: int| 0 <= k < inputs.height() implies self.is_adapted(
                        *math,
                        inputs.line(k),
                        #[trigger] m.line(k),
                    ) by {
                        assert(holds_row(flat@, width as int, k, rows[k]));
                        assert(m.line(k) == rows[k]);
                    }
                }
                Ok(m)
            },
            Err(cause) => Err(
                InferenceError::ForwardError(
                    join("Failed to stack LoRA outputs: ", cause.as_str()),
                ),
            ),
        }
    }
}

/// Whether an arithmetic of adapters does not round: whatever it returns is the
/// true result.
pub open spec fn adapts_exactly<A: AdapterMath>(math: &A) -> bool {
    &&& forall|x: &[Single], y: &[Single], r: Single| #[trigger]
        call_ensures(A::dot, (math, x, y), r) && x@.len() == y@.len() ==> r.value() == crate::exact::dot_of(
            x@,
            y@,
            x@.len() as int,
        )
    &&& forall|a: Single, b: Single, r: Single| #[trigger]
        call_ensures(A::product, (math, a, b), r) ==> r.value() == a.value() * b.value()
    &&& forall|a: Single, b: Single, r: Single| #[trigger]
        call_ensures(A::sum, (math, a, b), r) ==> r.value() == a.value() + b.value()
}

/// A place of the product of a signal with two matrices: the sum of a row of the
/// second matrix times what the first `n` rows of the first one make of the
/// signal.
pub open spec fn low_rank(
    lora_a: Matrix,
    lora_b: Matrix,
    input: Seq<Single>,
    i: int,
    n: int,
) -> real
    decreases n,
{
    if n <= 0 {
        0real
    } else {
        low_rank(lora_a, lora_b, input, i, n - 1) + lora_b.line(i)[n - 1].value() * crate::exact::dot_of(
            input,
            lora_a.line(n - 1),
            input.len() as int,
        )
    }
}

/// What a signal has at a place of the output before anything is added to it:
/// the signal itself where the output is as long, and else nothing.
pub open spec fn kept_input(input: Seq<Single>, length: nat, i: int) -> real {
    if input.len() == length {
        input[i].value()
    } else {
        0real
    }
}

proof fn rows_have_the_width(m: Matrix, i: int)
    requires
        m.wf(),
        0 <= i < m.height(),
    ensures
        m.line(i).len() == m.width(),
{
    let (h, w) = (m.height() as int, m.width() as int);
    assert(0 <= i * w && i * w + w <= h * w) by (nonlinear_arith)
        requires
            0 <= i < h,
            0 <= w,
    ;
}

proof fn hidden_makes_low_rank<A: AdapterMath>(
    math: &A,
    lora_a: Matrix,
    lora_b: Matrix,
    input: Seq<Single>,
    hidden: Seq<Single>,
    i: int,
    n: int,
)
    requires
        adapts_exactly(math),
        lora_a.wf(),
        input.len() == lora_a.width(),
        is_product(*math, input, lora_a, hidden),
        0 <= n <= hidden.len(),
    ensures
        crate::exact::dot_of(hidden, lora_b.line(i), n) == low_rank(lora_a, lora_b, input, i, n),
    decreases n,
{
    if n > 0 {
        hidden_makes_low_rank(math, lora_a, lora_b, input, hidden, i, n - 1);
        assert(is_dot(*math, input, lora_a.line(n - 1), hidden[n - 1]));
        rows_have_the_width(lora_a, n - 1);
        let (x, y) = (hidden[n - 1].value(), lora_b.line(i)[n - 1].value());
        assert(x == crate::exact::dot_of(input, lora_a.line(n - 1), input.len() as int));
        assert(x * y == y * x) by (nonlinear_arith);
    }
}

/// What an adapter adds to a signal is the product of the signal with both
/// matrices, times the scaling.
pub proof fn change_is_the_scaled_product<A: AdapterMath>(
    math: &A,
    adapter: LoraAdapter,
    input: Seq<Single>,
    out: Seq<Single>,
    i: int,
)
    requires
        adapts_exactly(math),
        adapter.wf(),
        input.len() == adapter.lora_a.width(),
        adapter.is_adapted(*math, input, out),
        0 <= i < adapter.lora_b.height(),
    ensures
        out.len() == adapter.lora_b.height(),
        out[i].value() - kept_input(input, out.len(), i) == adapter.scaling.value() * low_rank(
            adapter.lora_a,
            adapter.lora_b,
            input,
            i,
            adapter.lora_a.height() as int,
        ),
{
    let (hidden, raw) = choose|hidden: Seq<Single>, raw: Seq<Single>|
        {
            &&& #[trigger] is_product(*math, input, adapter.lora_a, hidden)
            &&& #[trigger] is_product(*math, hidden, adapter.lora_b, raw)
            &&& out.len() == raw.len()
            &&& forall|i: int|
                0 <= i < out.len() ==> is_mixed(
                    *math,
                    raw[i],
                    adapter.scaling,
                    if raw.len() == input.len() {
                        Some(input[i])
                    } else {
                        None
                    },
                    #[trigger] out[i],
                )
        };
    assert(is_dot(*math, hidden, adapter.lora_b.line(i), raw[i]));
    rows_have_the_width(adapter.lora_b, i);
    hidden_makes_low_rank(
        math,
        adapter.lora_a,
        adapter.lora_b,
        input,
        hidden,
        i,
        hidden.len() as int,
    );
    assert(out[i] == out[i]);
    let (x, s) = (raw[i].value(), adapter.scaling.value());
    assert(x * s == s * x) by (nonlinear_arith);
}

/// Every row of a table is changed as a signal by itself: what is added to it
/// is its own product with both matrices, times the scaling.
pub proof fn rows_are_changed_by_themselves<A: AdapterMath>(
    math: &A,
    adapter: LoraAdapter,
    inputs: Matrix,
    out: Matrix,
    k: int,
    i: int,
)
    requires
        adapts_exactly(math),
        adapter.wf(),
        inputs.wf(),
        adapter.is_adapted_table(*math, inputs, Ok(out)),
        0 <= k < inputs.height(),
        0 <= i < adapter.lora_b.height(),
    ensures
        inputs.width() == adapter.lora_a.width(),
        out.height() == inputs.height(),
        out.width() == adapter.lora_b.height(),
        out.line(k)[i].value() - kept_input(inputs.line(k), out.width(), i)
            == adapter.scaling.value() * low_rank(
            adapter.lora_a,
            adapter.lora_b,
            inputs.line(k),
            i,
            adapter.lora_a.height() as int,
        ),
{
    assert(adapter.is_adapted(*math, inputs.line(k), out.line(k)));
    rows_have_the_width(inputs, k);
    rows_have_the_width(out, k);
    change_is_the_scaled_product(math, adapter, inputs.line(k), out.line(k), i);
}

/// The scaling of a configuration, as many times as its rank, is its alpha.
pub proof fn scaling_is_alpha_per_rank<A: AdapterMath>(
    math: &A,
    config: LoraConfig,
    scaling: Single,
)
    requires
        forall|alpha: Single, rank: usize, r: Single| #[trigger]
            call_ensures(A::ratio, (math, alpha, rank), r) && rank > 0 ==> r.value() * (rank as int
                as real) == alpha.value(),
        config.rank > 0,
        config.is_scaling(math, scaling),
    ensures
        scaling.value() * (config.rank as int as real) == config.alpha.value(),
{
}

/// Two adapters with the same matrices change a signal in the proportion of
/// their scalings, and a scaling of zero changes nothing.
pub proof fn changes_go_with_the_scaling<A: AdapterMath>(
    math: &A,
    one: LoraAdapter,
    other: LoraAdapter,
    factor: real,
    input: Seq<Single>,
    out: Seq<Single>,
    other_out: Seq<Single>,
    i: int,
)
    requires
        adapts_exactly(math),
        one.wf(),
        one.lora_a == other.lora_a,
        one.lora_b == other.lora_b,
        other.scaling.value() == factor * one.scaling.value(),
        input.len() == one.lora_a.width(),
        one.is_adapted(*math, input, out),
        other.is_adapted(*math, input, other_out),
        0 <= i < one.lora_b.height(),
    ensures
        out.len() == other_out.len(),
        other_out[i].value() - kept_input(input, out.len(), i) == factor * (out[i].value()
            - kept_input(input, out.len(), i)),
        other.scaling.value() == 0real ==> other_out[i].value() == kept_input(input, out.len(), i),
{
    change_is_the_scaled_product(math, one, input, out, i);
    change_is_the_scaled_product(math, other, input, other_out, i);
    let p = low_rank(one.lora_a, one.lora_b, input, i, one.lora_a.height() as int);
    let s = one.scaling.value();
    assert((factor * s) * p == factor * (s * p)) by (nonlinear_arith);
    assert(factor * s == 0real ==> (factor * s) * p == 0real) by (nonlinear_arith);
}

/// Whether `row` stands at place `k` of a table of a width.
spec fn holds_row(flat: Seq<Single>, width: int, k: int, row: Seq<Single>) -> bool {
    &&& 0 <= k * width
    &&& k * width + width <= flat.len()
    &&& flat.subrange(k * width, k * width + width) == row
}

/// Whether `r` is a scaled sample, added to another one where there is one.
pub open spec fn is_mixed<A: AdapterMath>(
    math: A,
    raw: Single,
    scaling: Single,
    residual: Option<Single>,
    r: Single,
) -> bool {
    match residual {
        Some(x) => exists|scaled: Single|
            {
                &&& #[trigger] call_ensures(A::product, (&math, raw, scaling), scaled)
                &&& call_ensures(A::sum, (&math, scaled, x), r)
            },
        None => call_ensures(A::product, (&math, raw, scaling), r),
    }
}

/// Keeps adapters by name, and which one is active.
pub struct LoraAdapterManager {
    adapters: NamedMap<LoraAdapter>,
    active_adapter: Option<String>,
    config: LoraConfig,
}

impl LoraAdapterManager {
    /// The adapters by name.
    pub closed spec fn registered(&self) -> Map<Seq<char>, LoraAdapter> {
        self.adapters@
    }

    /// The names in the order in which they were first registered.
    pub closed spec fn order(&self) -> Seq<Seq<char>> {
        self.adapters.keys()
    }

    /// The name of the active adapter.
    pub closed spec fn active_name(&self) -> Option<Seq<char>> {
        match self.active_adapter {
            Some(name) => Some(name@),
            None => None,
        }
    }

    /// The configuration.
    pub closed spec fn settings(&self) -> LoraConfig {
        self.config
    }

    /// Every adapter is registered under its own name, and the active one is
    /// registered.
    pub closed spec fn wf(&self) -> bool {
        &&& self.adapters.wf()
        &&& self.active_name() is Some ==> self.registered().contains_key(self.active_name()->0)
        &&& forall|name: Seq<char>|
            #[trigger] self.adapters@.contains_key(name) ==> self.adapters@[name].name@ == name
                && self.adapters@[name].wf()
    }

    /// What a consistent manager keeps: the active adapter is a registered one.
    pub proof fn active_is_registered(&self)
        requires
            self.wf(),
        ensures
            self.active_name() is Some ==> self.registered().contains_key(self.active_name()->0),
    {
    }

    /// A manager without adapters.
    pub fn new(config: LoraConfig) -> (r: Self)
        ensures
            r.wf(),
            r.registered() == Map::<Seq<char>, LoraAdapter>::empty(),
            r.order().len() == 0,
            r.active_name() is None,
            r.settings() == config,
    {
        LoraAdapterManager { adapters: NamedMap::new(), active_adapter: None, config }
    }

    /// Registers an adapter under its name, in place of an earlier one.
    pub fn register_adapter(&mut self, adapter: LoraAdapter)
        requires
            old(self).wf(),
            adapter.wf(),
        ensures
            final(self).wf(),
            final(self).registered() == old(self).registered().insert(adapter.name@, adapter),
            final(self).order() == if old(self).registered().contains_key(adapter.name@) {
                old(self).order()
            } else {
                old(self).order().push(adapter.name@)
            },
            final(self).active_name() == old(self).active_name(),
            final(self).settings() == old(self).settings(),
    {
        let name: String = adapter.name.clone();
        let replaced: Option<LoraAdapter> = self.adapters.insert(name, adapter);
    }

    /// Makes an adapter the active one.
    pub fn activate(&mut self, name: &str) -> (r: InferenceResult<()>)
        requires
            old(self).wf(),
        ensures
            final(self).wf(),
            final(self).registered() == old(self).registered(),
            final(self).order() == old(self).order(),
            final(self).settings() == old(self).settings(),
            if old(self).registered().contains_key(name@) {
                r is Ok && final(self).active_name() == Some(name@)
            } else {
                &&& r matches Err(InferenceError::ForwardError(t)) && t@ == "Adapter '"@ + name@
                    + "' not found"@
                &&& final(self).active_name() == old(self).active_name()
            },
    {
        if !self.adapters.contains_key(name) {
            return Err(InferenceError::ForwardError(join3("Adapter '", name, "' not found")));
        }
        self.active_adapter = Some(name.to_owned());
        Ok(())
    }

    /// Leaves no adapter active.
    pub fn deactivate(&mut self)
        requires
            old(self).wf(),
        ensures
            final(self).wf(),
            final(self).registered() == old(self).registered(),
            final(self).order() == old(self).order(),
            final(self).settings() == old(self).settings(),
            final(self).active_name() is None,
    {
        self.active_adapter = None;
    }

    /// The active adapter.
    pub fn active_adapter(&self) -> (r: Option<&LoraAdapter>)
        requires
            self.wf(),
        ensures
            match r {
                Some(adapter) => self.active_name() is Some && *adapter
                    == self.registered()[self.active_name()->0] && adapter.wf(),
                None => self.active_name() is None,
            },
    {
        match &self.active_adapter {
            Some(name) => self.adapters.get(name.as_str()),
            None => None,
        }
    }

    /// Applies the active adapter to a signal; without one the signal stays as
    /// it is.
    pub fn apply<A: AdapterMath>(&self, math: &A, input: &[Single]) -> (r: InferenceResult<
        Vec<Single>,
    >)
        requires
            self.wf(),
        ensures
            match self.active_name() {
                None => r matches Ok(out) && out@ == input@,
                Some(name) => {
                    let adapter = self.registered()[name];
                    if input@.len() == adapter.lora_a.width() {
                        r is Ok && adapter.is_adapted(*math, input@, r->Ok_0@)
                    } else {
                        r matches Err(InferenceError::DimensionMismatch { expected, got })
                            && expected == adapter.lora_a.width() && got == input@.len()
                    }
                },
            },
    {
        match self.active_adapter() {
            Some(adapter) => adapter.apply(math, input),
            None => Ok(copy_samples(input)),
        }
    }

    /// Applies the active adapter to every row of a table; without one the
    /// table stays as it is.
    pub fn apply_batch<A: AdapterMath>(&self, math: &A, inputs: &Matrix) -> (r: InferenceResult<
        Matrix,
    >)
        requires
            self.wf(),
            inputs.wf(),
            self.active_name() is Some ==> inputs.height() > 0 && inputs.height()
                * self.registered()[self.active_name()->0].lora_b.height() <= usize::MAX,
        ensures
            match self.active_name() {
                None => {
                    &&& r is Ok
                    &&& r->Ok_0.height() == inputs.height()
                    &&& r->Ok_0.width() == inputs.width()
                    &&& r->Ok_0.flat() == inputs.flat()
                },
                Some(name) => self.registered()[name].is_adapted_table(*math, *inputs, r),
            },
    {
        match self.active_adapter() {
            Some(adapter) => adapter.apply_batch(math, inputs),
            None => Ok(inputs.copy()),
        }
    }

    /// The names of all adapters.
    pub fn list_adapters(&self) -> (r: Vec<String>)
        requires
            self.wf(),
        ensures
            r@.len() == self.registered().dom().len(),
            r@.len() == self.order().len(),
            forall|i: int| 0 <= i < r@.len() ==> (#[trigger] r@[i])@ == self.order()[i],
            forall|name: Seq<char>|
                #[trigger] self.order().contains(name) <==> self.registered().contains_key(name),
    {
        proof {
            self.adapters.size();
        }
        self.adapters.names()
    }

    /// The adapter of a name.
    pub fn get_adapter(&self, name: &str) -> (r: Option<&LoraAdapter>)
        requires
            self.wf(),
        ensures
            match r {
                Some(adapter) => self.registered().contains_key(name@) && *adapter
                    == self.registered()[name@],
                None => !self.registered().contains_key(name@),
            },
    {
        self.adapters.get(name)
    }

    /// Takes an adapter out; where it was active none is afterwards.
    pub fn remove_adapter(&mut self, name: &str) -> (r: Option<LoraAdapter>)
        requires
            old(self).wf(),
        ensures
            final(self).wf(),
            final(self).settings() == old(self).settings(),
            final(self).registered() == old(self).registered().remove(name@),
            final(self).active_name() == if old(self).active_name() == Some(name@) {
                None
            } else {
                old(self).active_name()
            },
            r == if old(self).registered().contains_key(name@) {
                Some(old(self).registered()[name@])
            } else {
                None
            },
    {
        let is_active: bool = match &self.active_adapter {
            Some(active) => same_text(active.as_str(), name),
            None => false,
        };
        if is_active {
            self.deactivate();
        }
        self.adapters.remove(name)
    }

    /// The configuration.
    pub fn config(&self) -> (r: &LoraConfig)
        ensures
            *r == self.settings(),
    {
        &self.config
    }
}

/// Builds an adapter from its parts.
#[derive(Debug)]
pub struct LoraAdapterBuilder {
    lora_a: Option<Matrix>,
    lora_b: Option<Matrix>,
    scaling: Single,
    name: String,
}

impl LoraAdapterBuilder {
    /// The first matrix, if it was set.
    pub closed spec fn first(&self) -> Option<Matrix> {
        self.lora_a
    }

    /// The second matrix, if it was set.
    pub closed spec fn second(&self) -> Option<Matrix> {
        self.lora_b
    }

    /// The scaling.
    pub closed spec fn factor(&self) -> Single {
        self.scaling
    }

    /// The name.
    pub closed spec fn title(&self) -> String {
        self.name
    }

    /// A builder without matrices, with scaling 1.
    pub fn new(name: String) -> (r: Self)
        ensures
            r.first() is None,
            r.second() is None,
            r.factor().bits == ONE_BITS,
            r.title() == name,
    {
        LoraAdapterBuilder {
            lora_a: None,
            lora_b: None,
            scaling: Single { bits: ONE_BITS },
            name,
        }
    }

    /// Sets the first matrix.
    pub fn lora_a(self, matrix: Matrix) -> (r: Self)
        ensures
            r.first() == Some(matrix),
            r.second() == self.second(),
            r.factor() == self.factor(),
            r.title() == self.title(),
    {
        LoraAdapterBuilder { lora_a: Some(matrix), ..self }
    }

    /// Sets the second matrix.
    pub fn lora_b(self, matrix: Matrix) -> (r: Self)
        ensures
            r.first() == self.first(),
            r.second() == Some(matrix),
            r.factor() == self.factor(),
            r.title() == self.title(),
    {
        LoraAdapterBuilder { lora_b: Some(matrix), ..self }
    }

    /// Sets the scaling.
    pub fn scaling(self, scaling: Single) -> (r: Self)
        ensures
            r.first() == self.first(),
            r.second() == self.second(),
            r.factor() == scaling,
            r.title() == self.title(),
    {
        LoraAdapterBuilder { scaling, ..self }
    }

    /// Sets the scaling to that of a configuration.
    pub fn scaling_from_config<A: AdapterMath>(self, math: &A, config: &LoraConfig) -> (r: Self)
        ensures
            r.first() == self.first(),
            r.second() == self.second(),
            call_ensures(A::ratio, (math, config.alpha, config.rank), r.factor()),
            r.title() == self.title(),
    {
        let scaling: Single = config.scaling(math);
        LoraAdapterBuilder { scaling, ..self }
    }

    /// Builds the adapter, where both matrices are there and have one rank.
    pub fn build(self) -> (r: InferenceResult<LoraAdapter>)
        requires
            self.first() is Some ==> self.first()->0.wf(),
            self.second() is Some ==> self.second()->0.wf(),
        ensures
            match (self.first(), self.second()) {
                (None, _) => r matches Err(InferenceError::ForwardError(t)) && t@
                    == "LoRA matrix A not provided"@,
                (_, None) => r matches Err(InferenceError::ForwardError(t)) && t@
                    == "LoRA matrix B not provided"@,
                (Some(a), Some(b)) => if a.height() == b.width() {
                    &&& r == Ok::<LoraAdapter, InferenceError>(
                        LoraAdapter {
                            lora_a: a,
                            lora_b: b,
                            scaling: self.factor(),
                            name: self.title(),
                        },
                    )
                    &&& r->Ok_0.wf()
                } else {
                    r matches Err(InferenceError::DimensionMismatch { expected, got }) && expected
                        == a.height() && got == b.width()
                },
            },
    {
        match self.lora_a {
            None => Err(InferenceError::ForwardError("LoRA matrix A not provided".to_owned())),
            Some(a) => match self.lora_b {
                None => Err(InferenceError::ForwardError("LoRA matrix B not provided".to_owned())),
                Some(b) => LoraAdapter::new(a, b, self.scaling, self.name),
            },
        }
    }
}

/// The number of features of an adapter that is made from a configuration
/// alone.
pub const BLANK_FEATURES: usize = 128;

/// Knows where the files of adapters are.
#[derive(Debug, Clone)]
pub struct LoraAdapterLoader {
    base_path: String,
}

impl LoraAdapterLoader {
    /// The directory of the adapters.
    pub closed spec fn base(&self) -> Seq<char> {
        self.base_path@
    }

    /// A loader for the adapters in a directory.
    pub fn new(base_path: String) -> (r: Self)
        ensures
            r.base() == base_path@,
    {
        LoraAdapterLoader { base_path }
    }

    /// The directory of the adapters.
    pub fn base_path(&self) -> (r: &str)
        ensures
            r@ == self.base(),
    {
        self.base_path.as_str()
    }

    /// The adapter that a configuration alone makes: zeros of its rank.
    pub fn blank_adapter<A: AdapterMath>(&self, math: &A, name: &str, config: &LoraConfig) -> (r:
        InferenceResult<LoraAdapter>)
        requires
            config.rank * BLANK_FEATURES <= usize::MAX,
        ensures
            r is Ok,
            r->Ok_0.wf(),
            r->Ok_0.name@ == name@,
            call_ensures(A::ratio, (math, config.alpha, config.rank), r->Ok_0.scaling),
            r->Ok_0.lora_a.height() == config.rank,
            r->Ok_0.lora_a.width() == BLANK_FEATURES,
            r->Ok_0.lora_b.height() == BLANK_FEATURES,
            r->Ok_0.lora_b.width() == config.rank,
            forall|i: int|
                0 <= i < r->Ok_0.lora_a.flat().len() ==> (#[trigger] r->Ok_0.lora_a.flat()[i]).bits
                    == 0,
            forall|i: int|
                0 <= i < r->Ok_0.lora_b.flat().len() ==> (#[trigger] r->Ok_0.lora_b.flat()[i]).bits
                    == 0,
    {
        let lora_a: Matrix = Matrix::zeros(config.rank, BLANK_FEATURES);
        let lora_b: Matrix = Matrix::zeros(BLANK_FEATURES, config.rank);
        let scaling: Single = config.scaling(math);
        LoraAdapter::new(lora_a, lora_b, scaling, name.to_owned())
    }
}

} // verus!
