pub mod archive;
pub mod encoding;
pub mod interleaving;
pub mod keys;
pub mod links;
pub mod message;
pub mod numbers;
pub mod outbox;
pub mod page;
pub mod progress;
pub mod reader;
pub mod screen;
pub mod sending;
pub mod serving;
pub mod shelf;
pub mod socket;
pub mod sync;
pub mod text;
pub mod transfers;
pub mod uploader;
