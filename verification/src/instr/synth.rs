pub mod local_f_manager;
pub mod local_g_manager;
