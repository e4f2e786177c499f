//! The closed catalog of scalar nonlinearities: a tagged union over the
//! fixed activation set, with a forward function, a derivative, and a
//! stable name used by the save format.
//!
//! `Sigmoid` is the piecewise-linear ("hard") sigmoid
//! `clamp(x/4 + 1/2, 0, 1)`, the exact form this fixed-point engine
//! computes; its derivative is the slope of that piecewise map.

use vstd::prelude::*;

verus! {

use crate::fixed::{Fixed, tdiv, HALF, QUARTER, SCALE};

broadcast use vstd::array::group_array_axioms;

/// One of the engine's scalar nonlinearities.
#[derive(Clone, Copy, Debug, PartialEq, Eq, Structural)]
pub enum Activation {
    /// The identity map; serialized as "none".
    Identity,
    /// `max(0, x)`; serialized as "relu".
    Relu,
    /// `clamp(x/4 + 1/2, 0, 1)`; serialized as "sigmoid".
    Sigmoid,
}

/// The value of an activation function on a raw fixed-point value.
pub open spec fn act_of(a: Activation, x: int) -> int {
    match a {
        Activation::Identity => x,
        Activation::Relu => if x >= 0 {
            x
        } else {
            0
        },
        Activation::Sigmoid => {
            let t = tdiv(x, 4) + HALF;
            if t < 0 {
                0
            } else if t > SCALE {
                SCALE as int
            } else {
                t
            }
        },
    }
}

/// The derivative of an activation function on a raw fixed-point value.
pub open spec fn act_deriv(a: Activation, x: int) -> int {
    match a {
        Activation::Identity => SCALE as int,
        Activation::Relu => if x > 0 {
            SCALE as int
        } else {
            0
        },
        Activation::Sigmoid => if -2 * SCALE <= x <= 2 * SCALE {
            QUARTER as int
        } else {
            0
        },
    }
}

/// The stable serialization name of an activation.
pub open spec fn name_text(a: Activation) -> Seq<u8> {
    match a {
        Activation::Identity => seq![110u8, 111u8, 110u8, 101u8],  // "none"
        Activation::Relu => seq![114u8, 101u8, 108u8, 117u8],  // "relu"
        Activation::Sigmoid => seq![115u8, 105u8, 103u8, 109u8, 111u8, 105u8, 100u8],  // "sigmoid"
    }
}

/// The activation a name denotes, if any.
pub open spec fn act_from_name(s: Seq<u8>) -> Option<Activation> {
    if s == name_text(Activation::Identity) {
        Some(Activation::Identity)
    } else if s == name_text(Activation::Relu) {
        Some(Activation::Relu)
    } else if s == name_text(Activation::Sigmoid) {
        Some(Activation::Sigmoid)
    } else {
        None
    }
}

/// Every activation's name looks itself up.
pub proof fn lemma_name_round_trip(a: Activation)
    ensures
        act_from_name(name_text(a)) == Some(a),
{
    match a {
        Activation::Identity => {
        },
        Activation::Relu => {
            assert(name_text(Activation::Relu) != name_text(Activation::Identity));
        },
        Activation::Sigmoid => {
            assert(name_text(Activation::Sigmoid) != name_text(Activation::Identity));
            assert(name_text(Activation::Sigmoid) != name_text(Activation::Relu));
        },
    }
}

impl Activation {
    /// The identity activation, named "none" in save files.
    pub fn identity() -> (r: Activation)
        ensures
            r == Activation::Identity,
    {
        Activation::Identity
    }

    /// The rectifier activation.
    pub fn relu() -> (r: Activation)
        ensures
            r == Activation::Relu,
    {
        Activation::Relu
    }

    /// The hard-sigmoid activation.
    pub fn sigmoid() -> (r: Activation)
        ensures
            r == Activation::Sigmoid,
    {
        Activation::Sigmoid
    }

    /// Evaluate the activation on a scalar.
    pub fn of(self, x: Fixed) -> (r: Fixed)
        ensures
            r@ == act_of(self, x@),
    {
        match self {
            Activation::Identity => x,
            Activation::Relu => {
                if x.raw >= 0 {
                    x
                } else {
                    Fixed::zero()
                }
            },
            Activation::Sigmoid => {
                let t = x.quarter();
                let raw = t.raw + HALF;
                if raw < 0 {
                    Fixed::zero()
                } else if raw > SCALE {
                    Fixed::one()
                } else {
                    Fixed::from_raw(raw)
                }
            },
        }
    }

    /// Evaluate the activation's derivative on a scalar.
    pub fn deriv_of(self, x: Fixed) -> (r: Fixed)
        ensures
            r@ == act_deriv(self, x@),
    {
        match self {
            Activation::Identity => Fixed::one(),
            Activation::Relu => {
                if x.raw > 0 {
                    Fixed::one()
                } else {
                    Fixed::zero()
                }
            },
            Activation::Sigmoid => {
                if x.raw >= -2 * SCALE && x.raw <= 2 * SCALE {
                    Fixed::from_raw(QUARTER)
                } else {
                    Fixed::zero()
                }
            },
        }
    }

    /// Append the stable name of the activation to `out`.
    pub fn push_name(self, out: &mut Vec<u8>)
        ensures
            final(out)@ == old(out)@ + name_text(self),
    {
        match self {
            Activation::Identity => {
                out.push(110);
                out.push(111);
                out.push(110);
                out.push(101);
            },
            Activation::Relu => {
                out.push(114);
                out.push(101);
                out.push(108);
                out.push(117);
            },
            Activation::Sigmoid => {
                out.push(115);
                out.push(105);
                out.push(103);
                out.push(109);
                out.push(111);
                out.push(105);
                out.push(100);
            },
        }
        assert(final(out)@ =~= old(out)@ + name_text(self));
    }

    /// Look an activation up by its stable name; fails on any name outside
    /// the closed set.
    pub fn from_name(s: &[u8]) -> (r: Option<Activation>)
        ensures
            r == act_from_name(s@),
    {
        let idn: [u8; 4] = [110, 111, 110, 101];
        let rln: [u8; 4] = [114, 101, 108, 117];
        let sgn: [u8; 7] = [115, 105, 103, 109, 111, 105, 100];
        if crate::text::bytes_eq(s, idn.as_slice()) {
            assert(s@ =~= name_text(Activation::Identity));
            Some(Activation::Identity)
        } else if crate::text::bytes_eq(s, rln.as_slice()) {
            assert(s@ =~= name_text(Activation::Relu));
            Some(Activation::Relu)
        } else if crate::text::bytes_eq(s, sgn.as_slice()) {
            assert(s@ =~= name_text(Activation::Sigmoid));
            Some(Activation::Sigmoid)
        } else {
            proof {
                if s@ == name_text(Activation::Identity) {
                    assert(s@ =~= idn@);
                }
                if s@ == name_text(Activation::Relu) {
                    assert(s@ =~= rln@);
                }
                if s@ == name_text(Activation::Sigmoid) {
                    assert(s@ =~= sgn@);
                }
            }
            None
        }
    }
}

} // verus!
