pub mod terminal_display;
