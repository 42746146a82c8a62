pub mod error;
pub mod text;
pub mod paths;
pub mod scheduler;
pub mod resources;
pub mod job;
pub mod artifact;
pub mod protocol;
pub mod cgroup;
pub mod capabilities;
pub mod supervisor;
pub mod seccomp;
