pub mod text;
pub mod maps;
pub mod json;
pub mod digest;
pub mod model;
pub mod encode;
pub mod error;
pub mod validate;
pub mod runtime;
pub mod events;
pub mod inventory;
pub mod quests;
pub mod world;
pub mod host;
pub mod commit;
pub mod transaction;
pub mod migration;
pub mod storage;
pub mod limiter;
pub mod rpc;
pub mod demo;
pub mod upgrade;
