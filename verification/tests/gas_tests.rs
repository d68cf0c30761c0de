use accumulator_store::gas::{CostTable, GasConstants, GasCost};

fn constants() -> GasConstants {
    GasConstants {
        global_memory_per_byte_cost: 4,
        global_memory_per_byte_write_cost: 9,
        min_transaction_gas_units: 600,
        large_transaction_cutoff: 600,
        intrinsic_gas_per_byte: 8,
        maximum_number_of_gas_units: 40_000_000,
        min_price_per_gas_unit: 1,
        max_price_per_gas_unit: 10_000,
        max_transaction_size_in_bytes: 262_144,
        gas_unit_scaling_factor: 1_000,
        default_account_size: 800,
    }
}

#[test]
fn to_internal_units_scales_by_the_factor() {
    let constants = constants();
    assert_eq!(constants.to_internal_units(0), 0);
    assert_eq!(constants.to_internal_units(1), 1_000);
    assert_eq!(constants.to_internal_units(600), 600_000);
}

#[test]
fn cost_table_holds_its_rows() {
    let table = CostTable {
        instruction_table: vec![GasCost::new(1, 1), GasCost::new(2, 1)],
        native_table: vec![GasCost::new(3, 1)],
        gas_constants: constants(),
    };
    assert_eq!(table.instruction_table.len(), 2);
    assert_eq!(table.native_table[0], GasCost::new(3, 1));
    assert_eq!(table.gas_constants.gas_unit_scaling_factor, 1_000);
}
