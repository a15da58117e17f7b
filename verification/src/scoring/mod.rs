pub mod relevance;
