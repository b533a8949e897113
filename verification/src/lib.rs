//! The logic of a manager for packages of pacman and Flatpak: what is read, decided and shown.
//! Files, processes, the network and the window are left to the program around it.
pub mod backend;
pub mod cache;
pub mod catalogue;
pub mod command;
pub mod conf;
pub mod deps;
pub mod detail;
pub mod error;
pub mod filters;
pub mod float;
pub mod html;
pub mod json;
pub mod listing;
pub mod loading;
pub mod manager;
pub mod news;
pub mod notify;
pub mod number;
pub mod operation;
pub mod order;
pub mod orphans;
pub mod package;
pub mod pages;
pub mod plasmoid;
pub mod popup;
pub mod progress;
pub mod remote;
pub mod repos;
pub mod requests;
pub mod screen;
pub mod selection;
pub mod session;
pub mod startup;
pub mod state;
pub mod store;
pub mod sync;
pub mod sysinfo;
pub mod terminal;
pub mod text;
pub mod transaction;
pub mod tray;
pub mod version;
pub mod window;
pub mod xml;
