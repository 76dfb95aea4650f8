//! Decision core of a streaming mixture-of-experts inference engine.

pub mod args;
pub mod attn;
pub mod bank;
pub mod block_run;
pub mod bytes;
pub mod cache_laws;
pub mod capacity;
pub mod census;
pub mod checks;
pub mod ckpt;
pub mod dataflow;
pub mod decode;
pub mod dev_cache;
pub mod dflash;
pub mod draft_flow;
pub mod draft_graph;
pub mod ensure;
pub mod eval_bank;
pub mod expert_laws;
pub mod floats;
pub mod forward;
pub mod generate;
pub mod geom;
pub mod geom_reads;
pub mod graph;
pub mod header;
pub mod hotlist;
pub mod hybrid;
pub mod hybrid_bank;
pub mod hybrid_flow;
pub mod hybrid_graph;
pub mod kv;
pub mod lanes;
pub mod layer_loads;
pub mod layer_plan;
pub mod list_laws;
pub mod loading;
pub mod moe_flow;
pub mod option_names;
pub mod parts;
pub mod place_laws;
pub mod placement;
pub mod placing;
pub mod prefetch;
pub mod prefix;
pub mod requant;
pub mod resolve;
pub mod run_laws;
pub mod scratch;
pub mod session;
pub mod shape;
pub mod shape_reads;
pub mod shards;
pub mod slot_laws;
pub mod sort;
pub mod stats;
pub mod store;
pub mod tensors;
pub mod text;
pub mod tier_laws;
pub mod tiers;
pub mod utf8;
pub mod weight_names;
pub mod words;

