pub mod seqs;
pub mod text;
pub mod lnk;
pub mod resource_type;
pub mod game;
pub mod clock;
pub mod remote;
pub mod project;
pub mod mutation;
pub mod project_list;
pub mod config;
pub mod effect;
pub mod state;
pub mod list_actions;
pub mod list_group_actions;
pub mod folder_actions;
pub mod notifications;
pub mod collection;
pub mod cache;
pub mod suggest;
pub mod rm_api;
pub mod paths;
pub mod project_actions;
pub mod paste;
pub mod events;
pub mod handle;
pub mod sidebar;
pub mod registry;
pub mod import_matching;
pub mod project_status;
pub mod pools;
pub mod project_filter;
pub mod downloads;
pub mod icon_pool;
