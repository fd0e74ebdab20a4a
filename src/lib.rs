pub mod bdeque;
pub mod order;
pub mod label;
pub mod pqgrams;
pub mod profile;
pub mod default_tree;
pub mod distance;
pub mod laws;

pub use bdeque::BDeque;
pub use default_tree::Tree;
pub use distance::{default_gram_edit_distance, pqgram_distance, pqgram_profile_intersection, ProfileDistance};
pub use label::ValidGramElement;
pub use pqgrams::{flatten_profile, Node, PQGram};
pub use profile::{pqgram_profile, LabelledTree};
