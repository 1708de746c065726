pub mod body;
pub mod ids;
pub mod routes;
pub mod text;
