//! A verified model of the YatSenOS kernel's logic and of its programs'
//! decisions: shell paths and command lines, the FAT16 reader and the root
//! file system, processes, their scheduler and semaphores, the frame
//! allocator, keyboard and serial input, the log format, the clock, and the
//! bootloader's memory arithmetic.
pub mod path;
pub mod fat16;
pub mod listing;
pub mod fat16_impl;
pub mod fat16_fs;
pub mod filesystem;
pub mod pid;
pub mod semaphore;
pub mod process;
pub mod manager;
pub mod service;
pub mod proclist;
pub mod frames;
pub mod boot;
pub mod input;
pub mod serial;
pub mod logger;
pub mod clock;
pub mod shell;
pub mod user;
pub mod dinner;
pub mod mq;
pub mod fish;
