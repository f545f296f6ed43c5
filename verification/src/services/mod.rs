//! What surrounds the yt-dlp and ffmpeg tools: the arguments they are run
//! with, how their output is read, and how the finished file is found and
//! named.

pub mod ytdlp;
