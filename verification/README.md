# image_processor

A command-line image processor with two plugins, a box blur and a mirror,
whose logic is verified with Verus.

- `src/` is the verified library:
  - `text`: whitespace trimming, splitting on separators and `u32` parsing,
    each proved against a specification of the standard library operation;
  - `blur`: blur settings (`kernel_size=5,iterations=2`), the box blur and
    the plugin entry point, with laws (values stay within the input range,
    uniform images and alpha are unchanged);
  - `mirror`: mirror settings (`direction=vertical`), the reflection and the
    plugin entry point, with laws (mirroring twice is the identity,
    left-right then top-bottom is a half turn);
  - `raster`: the layout of RGBA rasters and its index arithmetic;
  - `paths`: paths as `std::path` treats them on Unix and on Windows
    (separators, Windows prefixes such as `C:` and `\\?\`), compared
    component by component and joined as `Path::join` joins them;
  - `image_loader`, `args`, `plugin_loader`, `error`: the checks the program
    makes on images, command lines and plugin libraries, with paths compared
    and joined by the rules of the platform the program runs on.
- `app/` is the program: command-line parsing, file input and output,
  loading plugin libraries, and the C entry points of the plugins.
- `tests/` runs the library on concrete inputs.
