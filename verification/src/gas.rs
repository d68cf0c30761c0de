//! Gas cost constants of the transaction execution layer.
//!
//! The quantities are plain 64-bit unit counts; the aliases name the unit a
//! count is measured in.

use vstd::prelude::*;

verus! {

/// A count of internal gas units.
pub type InternalGas = u64;

/// Internal gas units charged per byte.
pub type InternalGasPerByte = u64;

/// A count of bytes.
pub type NumBytes = u64;

/// A count of external gas units.
pub type Gas = u64;

/// A fee per external gas unit.
pub type FeePerGasUnit = u64;

/// Internal gas units per external gas unit.
pub type GasScalingFactor = u64;

/// Unit of abstract value size — a conceptual measurement of the memory
/// space a value occupies during execution.
/// Verus asks every datatype for at least one variant, so the unit is a
/// one-variant marker rather than an uninhabited one.
#[derive(Clone, Copy, Debug, PartialEq, Eq, Structural)]
pub enum AbstractValueUnit {
    AbstractValue,
}

/// The execution cost of one operation: its instruction cost and the memory
/// cost it incurs.
#[derive(Clone, Copy, Debug, PartialEq, Eq, Structural)]
pub struct GasCost {
    pub instruction_gas: InternalGas,
    pub memory_gas: InternalGas,
}

impl GasCost {
    pub fn new(instruction_gas: u64, memory_gas: u64) -> (r: GasCost)
        ensures
            r == (GasCost { instruction_gas, memory_gas }),
    {
        GasCost { instruction_gas, memory_gas }
    }
}

/// The flat constants of the gas schedule.
#[derive(Clone, Copy, Debug, PartialEq, Eq, Structural)]
pub struct GasConstants {
    /// The cost per byte read from global storage.
    pub global_memory_per_byte_cost: InternalGasPerByte,
    /// The cost per byte written to storage.
    pub global_memory_per_byte_write_cost: InternalGasPerByte,
    /// The flat minimum amount of gas required for any transaction, charged
    /// at the start of execution.
    pub min_transaction_gas_units: InternalGas,
    /// Any transaction over this size is charged an additional amount per
    /// byte.
    pub large_transaction_cutoff: NumBytes,
    /// The units of gas charged per byte over `large_transaction_cutoff`.
    pub intrinsic_gas_per_byte: InternalGasPerByte,
    /// The upper bound on the computational gas of one transaction.
    pub maximum_number_of_gas_units: Gas,
    /// The minimum gas price a transaction can be submitted with.
    pub min_price_per_gas_unit: FeePerGasUnit,
    /// The maximum gas price a transaction can be submitted with.
    pub max_price_per_gas_unit: FeePerGasUnit,
    pub max_transaction_size_in_bytes: NumBytes,
    pub gas_unit_scaling_factor: GasScalingFactor,
    pub default_account_size: NumBytes,
}

impl GasConstants {
    /// An external gas count in internal units: the count scaled by the
    /// schedule's scaling factor.
    pub fn to_internal_units(&self, gas: Gas) -> (r: InternalGasPerByte)
        requires
            gas * self.gas_unit_scaling_factor <= u64::MAX,
        ensures
            r == gas * self.gas_unit_scaling_factor,
    {
        gas * self.gas_unit_scaling_factor
    }
}

/// The cost tables, keyed by the serialized form of the bytecode
/// instruction.
#[derive(Clone, Debug, PartialEq, Eq)]
pub struct CostTable {
    pub instruction_table: Vec<GasCost>,
    pub native_table: Vec<GasCost>,
    pub gas_constants: GasConstants,
}

} // verus!
