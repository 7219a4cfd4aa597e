# rsts

A static map renderer and tile proxy. The verified library (`src/`) holds what the
server computes and decides: tile keys and URLs, the steps of the tile proxy and of
the tile cache, styles and the overlays added to them, template parameters, and the
composition and encoding of images. An ordinary program around it (`app/`) holds the
HTTP server, rendering with MapLibre Native, the SQL queries and files of the tile
cache (the database itself chooses which entries are evicted), template loading with
Tera, and the floating-point geometry of circles and markers.

Endpoints:

- `GET/POST /staticmap`: render a single static map.
- `GET/POST /staticmap/{template}`: render a static map described by a Tera template.
- `POST /multistaticmap`: render a grid of static maps.
- `GET/POST /multistaticmap/{template}`: render a grid described by a template.
- `GET /tiles/{id}/{z}/{x}/{y}`: mirror and cache external tile sources.

Library modules:

- `text`: replacement, suffix trimming and decimal rendering of strings.
- `json`: JSON documents and their model.
- `config`: the configuration, its tile sources by name, and what is read from it.
- `tiles`: the tile proxy as a state machine, and the tile cache's decisions.
- `style`: which style a map uses; pointing a fetched style at the tile server.
- `overlays`: polygons, circles and markers added to a style.
- `query`: query parameters of the template endpoints.
- `markers`: which marker images are fetched.
- `raster`, `grid`: images, and the composition of a multi-map.
- `reply`: replies to clients.
- `laws`: properties that span several functions.
