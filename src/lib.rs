//! Variable-base multi-scalar multiplication over elliptic-curve groups,
//! by Pippenger's bucket method.

pub mod group;
pub mod msm;
pub mod scalar;
pub mod window;
pub mod theorems;
