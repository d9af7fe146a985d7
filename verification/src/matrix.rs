//! The image matrix: a contiguous pixel buffer tagged with its shape and
//! element type.

use vstd::prelude::*;

verus! {

/// What the elements of a matrix stand for at the boundary.
#[derive(Clone, Copy, Debug, PartialEq, Eq, Structural)]
pub enum ElementType {
    /// 8-bit unsigned pixel values: masks, edges, grey levels.
    U8,
    /// 64-bit floating-point samples. The buffer holds their whole-number
    /// values; the boundary widens them.
    F64,
}

/// The typed failures of the image operations.
#[derive(Clone, Copy, Debug, PartialEq, Eq, Structural)]
pub enum ProcessError {
    /// A buffer does not fit its declared dimensions, or the frames of a
    /// multi-frame operation disagree in shape or element type.
    ShapeMismatch,
    /// The operation needs another channel count than the input has.
    ChannelMismatch,
    /// A numeric argument is out of its domain.
    InvalidParameter,
}

/// The mathematical content of a matrix.
pub struct MatrixView {
    pub rows: nat,
    pub columns: nat,
    pub channels: nat,
    pub element_type: ElementType,
    /// Row-major, channel-interleaved elements.
    pub data: Seq<u8>,
}

impl MatrixView {
    /// The buffer holds exactly one element per row, column and channel.
    pub open spec fn well_formed(self) -> bool {
        self.data.len() == self.rows * self.columns * self.channels
    }

    /// The element of channel `k` at row `r`, column `c`.
    pub open spec fn at(self, r: int, c: int, k: int) -> u8 {
        self.data[(r * self.columns + c) * self.channels + k]
    }

    /// Same dimensions and element type.
    pub open spec fn same_shape(self, other: MatrixView) -> bool {
        &&& self.rows == other.rows
        &&& self.columns == other.columns
        &&& self.channels == other.channels
        &&& self.element_type == other.element_type
    }
}

/// The sum of the samples of a buffer.
pub open spec fn sample_sum(data: Seq<u8>) -> int
    decreases data.len(),
{
    if data.len() == 0 {
        0
    } else {
        sample_sum(data.drop_last()) + data.last()
    }
}

/// An immutable image: `rows * columns * channels` elements with their shape
/// and element type. It always owns its buffer.
#[derive(Debug)]
pub struct Matrix {
    rows: usize,
    columns: usize,
    channels: usize,
    element_type: ElementType,
    data: Vec<u8>,
}

impl View for Matrix {
    type V = MatrixView;

    closed spec fn view(&self) -> MatrixView {
        MatrixView {
            rows: self.rows as nat,
            columns: self.columns as nat,
            channels: self.channels as nat,
            element_type: self.element_type,
            data: self.data@,
        }
    }
}

impl Matrix {
    #[verifier::type_invariant]
    closed spec fn inv(self) -> bool {
        self.data@.len() == self.rows * self.columns * self.channels
    }

    /// Builds a matrix from its dimensions and a row-major,
    /// channel-interleaved buffer. The buffer must hold exactly
    /// `rows * columns * channels` elements.
    pub fn new(
        rows: usize,
        columns: usize,
        channels: usize,
        element_type: ElementType,
        data: Vec<u8>,
    ) -> (made: Result<Matrix, ProcessError>)
        ensures
            made.is_ok() <==> data@.len() == rows * columns * channels,
            made.is_err() ==> made == Err::<Matrix, ProcessError>(ProcessError::ShapeMismatch),
            made.is_ok() ==> made.unwrap()@ == (MatrixView {
                rows: rows as nat,
                columns: columns as nat,
                channels: channels as nat,
                element_type,
                data: data@,
            }),
    {
        let length = data.len();
        proof {
            lemma_product_grows(rows as int, columns as int, channels as int);
        }
        let fits = match rows.checked_mul(columns) {
            Some(cells) => match cells.checked_mul(channels) {
                Some(total) => total == length,
                None => false,
            },
            // The cell count alone exceeds every buffer unless the channel
            // count is zero.
            None => channels == 0 && length == 0,
        };
        if fits {
            Ok(Matrix { rows, columns, channels, element_type, data })
        } else {
            Err(ProcessError::ShapeMismatch)
        }
    }

    /// Builds a matrix whose buffer is known to fit.
    pub(crate) fn assemble(
        rows: usize,
        columns: usize,
        channels: usize,
        element_type: ElementType,
        data: Vec<u8>,
    ) -> (made: Matrix)
        requires
            data@.len() == rows * columns * channels,
        ensures
            made@ == (MatrixView {
                rows: rows as nat,
                columns: columns as nat,
                channels: channels as nat,
                element_type,
                data: data@,
            }),
    {
        Matrix { rows, columns, channels, element_type, data }
    }

    /// The elements in row-major, channel-interleaved order.
    pub fn to_buffer(&self) -> (buffer: &Vec<u8>)
        ensures
            buffer@ == self@.data,
            self@.well_formed(),
    {
        proof {
            use_type_invariant(self);
        }
        &self.data
    }

    pub fn rows(&self) -> (n: usize)
        ensures
            n == self@.rows,
            self@.well_formed(),
    {
        proof {
            use_type_invariant(self);
        }
        self.rows
    }

    pub fn columns(&self) -> (n: usize)
        ensures
            n == self@.columns,
            self@.well_formed(),
    {
        proof {
            use_type_invariant(self);
        }
        self.columns
    }

    pub fn channels(&self) -> (n: usize)
        ensures
            n == self@.channels,
            self@.well_formed(),
    {
        proof {
            use_type_invariant(self);
        }
        self.channels
    }

    pub fn element_type(&self) -> (tag: ElementType)
        ensures
            tag == self@.element_type,
            self@.well_formed(),
    {
        proof {
            use_type_invariant(self);
        }
        self.element_type
    }

    /// The sum of all elements: the numerator of their arithmetic mean, whose
    /// denominator is the buffer's length.
    pub fn sum(&self) -> (total: u128)
        ensures
            total == sample_sum(self@.data),
    {
        let length = self.data.len();
        let mut total: u128 = 0;
        let mut p: usize = 0;
        while p < length
            invariant
                p <= length,
                length == self.data@.len(),
                total == sample_sum(self.data@.take(p as int)),
                total <= 255 * p,
            decreases length - p,
        {
            proof {
                assert(self.data@.take(p + 1).drop_last() =~= self.data@.take(p as int));
            }
            total = total + self.data[p] as u128;
            p += 1;
        }
        proof {
            assert(self.data@.take(length as int) =~= self.data@);
        }
        total
    }

    /// Whether `other` has the same dimensions and element type.
    pub fn same_shape(&self, other: &Matrix) -> (same: bool)
        ensures
            same == self@.same_shape(other@),
    {
        self.rows == other.rows && self.columns == other.columns && self.channels
            == other.channels && self.element_type == other.element_type
    }
}

/// A product of naturals is at least each factor's partial product, unless a
/// later factor is zero.
proof fn lemma_product_grows(a: int, b: int, c: int)
    by (nonlinear_arith)
    requires
        0 <= a,
        0 <= b,
        0 <= c,
    ensures
        c > 0 ==> a * b * c >= a * b,
        c == 0 ==> a * b * c == 0,
        a * b >= 0,
{
}

} // verus!
