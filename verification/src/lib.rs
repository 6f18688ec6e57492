//! The decisions of a terminal chat client: what a typed line asks for, which
//! packets it sends, what the screen shows and how a message is sealed.

pub mod address;
pub mod commands;
pub mod conduct;
pub mod deeds;
pub mod dialogue;
pub mod encrypter;
pub mod frontend;
pub mod keys;
pub mod layout;
pub mod listing;
pub mod lists;
pub mod model;
pub mod order;
pub mod packets;
pub mod permissions;
pub mod picture;
pub mod replies;
pub mod startup;
pub mod steps;
pub mod text;
pub mod typing;
