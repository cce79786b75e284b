pub mod text;
pub mod clip;
pub mod candidate_state;
pub mod ranking;
pub mod refresh;
pub mod media;
pub mod launch;
pub mod audio_input;
pub mod capture;
pub mod demo;
pub mod session;
pub mod analysis_schedule;
pub mod onsets;
