pub mod main_loop;
