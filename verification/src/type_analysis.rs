pub mod symbol_analysis;
