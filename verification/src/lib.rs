pub mod file_utils;
pub mod graph;
pub mod graph_to_uml;
pub mod model_to_uml;
pub mod models;
pub mod module;
pub mod pyast;
pub mod python_to_model;
pub mod python_to_graph;
pub mod python_utils;
pub mod text;
pub mod tree;
