//! Differential verification of an entry-incremental layer flush.
pub mod attribution_laws;
pub mod comparison_laws;
pub mod differential;
pub mod differential_laws;
pub mod evaluation_laws;
pub mod events;
pub mod flush_laws;
pub mod game_object;
pub mod game_state;
pub mod identifiers;
pub mod layer_laws;
pub mod layers;
pub mod mutation_laws;
pub mod object_table;
pub mod pairing;
pub mod perf_counters;
pub mod phasing;
pub mod text;
pub mod text_laws;
pub mod view_laws;
pub mod vocabulary;
pub mod vocabulary_laws;
pub mod zones;
