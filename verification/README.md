# Visual Media Viewer

The logic of a viewer for images and videos, verified with Verus, and the program around it.

`src/` is the library. It decides what is listed and in which order, which file comes next, what is
kept decoded, which frame of a video is shown when, what sound is played, and what keys and menu
choices do. Every function has a contract, and Verus proves all of them but the three named below.

| module | what it holds |
|--------|---------------|
| `text`, `path`, `media_time` | texts, paths as sequences of components, times in microseconds |
| `ordering`, `file_list` | sorting by natural order, date and date group; the list of a folder |
| `folders`, `folder_tree` | the next and the previous folder with images, and the order of a tree |
| `image_decode`, `cache` | decoded images, textures and mip levels, the cache of images |
| `video_player`, `audio`, `decoding`, `scaling` | playback, the audio clock, demuxer and decoder step by step, the size of frames |
| `settings`, `slideshow`, `title`, `transform`, `keys` | the parts of the viewer's state |
| `viewer`, `menu`, `controls` | the viewer itself: opening, moving, loading, saving |
| `folder_ops`, `ipc` | deleting folders, handing a path to a viewer that runs |

Three calls leave the library, each behind a function whose contract is trusted: natural order
(`natord`), image decoding (`image`) and the premultiplication of colours (`egui`).

`app/` is the program: windows and drawing with `eframe` and `wgpu`, video files with FFmpeg, sound
with `cpal`, the settings file, and the threads. Zooming, panning and the size of the window are
floating point and stay there.

`tests/` runs the library on given values.
