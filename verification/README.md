# geoengine_kernel

The decisions and computations of a geospatial engine, verified with Verus.

| module | what it does |
| --- | --- |
| `expression` | turns expression trees into Rust code, token by token |
| `testing` | expands annotated test functions |
| `netcdf` | creates, loads, stores and removes the overviews of NetCDF files |
| `natur40` | lists and finds the raster bands of a Natur 4.0 server |
| `reprojection` | reprojects queries and vector data |
| `plot` | mean values of rasters over time |
| `segmentation` | stacks bands into images and classifies pixels by scores |
| `tokens`, `text`, `float_bits`, `pixel`, `operator` | what the others build on |

Work that alternates with the outside world (`netcdf::creation`, `netcdf::indexing`) is a machine:
`action` tells what is to be done, `advance` takes the outcome. Each machine has a mathematical
state, and laws about all of its runs.

Floating-point numbers are held as their bit patterns. What computes with them, and what touches
files, networks, databases or Python, is ordinary Rust under `app/`.

`tests/` runs the library.
