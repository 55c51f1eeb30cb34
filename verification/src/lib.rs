//! SSH tunnels, SSH logins, VPN clients and RDP sessions, brought up and down from
//! one place.
//!
//! The library is the program without the machine: what is configured, what is
//! running, what every key does, what is drawn and what a report says. It performs
//! nothing itself. Each operation on the state gives back what is to be done
//! ([`effects::Effect`]), and what became of it is handed in again, so that a plan
//! is driven by the replies.
//!
//! Texts are modelled by their characters and states by themselves; an operation
//! states the relation between the state before and after, and what it asks for.

// Text, numbers, paths, lists
pub mod text;
pub mod number;
pub mod split;
pub mod path;
pub mod list;
pub mod sort;
pub mod calendar;

// What is configured
pub mod types;
pub mod base_laws;
pub mod config;
pub mod theme;
pub mod vpn;
pub mod platform;
pub mod redact;

// The programs that are run, and what they say
pub mod tunnel;
pub mod ssh;
pub mod rdp;
pub mod netbird;
pub mod sftp;
pub mod sftp_session;
pub mod remote_path;
pub mod command_laws;
pub mod ssh_laws;
pub mod reading_laws;

// What is running, and what is on screen
pub mod logs;
pub mod live;
pub mod vpn_view;
pub mod rows;
pub mod picker;
pub mod browser;
pub mod chooser;
pub mod screen;
pub mod tunnel_form;
pub mod ssh_form;
pub mod rdp_form;
pub mod vpn_form;
pub mod app;
pub mod queries;

// Plans
pub mod plan;
pub mod plan_laws;
pub mod dependency_laws;
pub mod activation;
pub mod activation_laws;

// What the keys and the passing of time do
pub mod effects;
pub mod running;
pub mod driving;
pub mod cursor;
pub mod arranging;
pub mod moving;
pub mod form_keys;
pub mod tunnels_tab;
pub mod ssh_tab;
pub mod rdp_tab;
pub mod vpn_tab;
pub mod vpn_profiles;
pub mod vpn_sync;
pub mod teardown;
pub mod clearing;
pub mod quitting;
pub mod panes;
pub mod tick;
pub mod running_laws;
pub mod reconnect;
pub mod tab_laws;
pub mod keeping_laws;
pub mod vpn_laws;
pub mod setting_laws;
pub mod keys;
pub mod key_laws;

// What is drawn, and the report
pub mod ui;
pub mod sheet;
pub mod parts;
pub mod lists;
pub mod session_lists;
pub mod scanning;
pub mod vpn_panes;
pub mod dashboard;
pub mod status_bar;
pub mod form_laws;
pub mod forms_view;
pub mod prompts;
pub mod pages;
pub mod shown_laws;
pub mod report;
pub mod report_laws;
pub mod report_content_laws;
