# openrailwaymap_exporter

Railway infrastructure from OpenStreetMap, as the Overpass API delivers it: the elements
(nodes and ways), the railway graph built from them, and the algorithms that run on the graph
(reachability, shortest paths, nearest nodes, travel along an edge), with the reinforcement-
learning agent that drives a train. The library in `src/` is verified with Verus; `app/` is the
command-line tool around it (HTTP requests, JSON, files, floating-point geodesy and rendering).

Coordinates are fixed-point integers in units of 10^-7 degrees; lengths and distances are
integer millimetres. Geodesic distances are measured by functions that the caller passes in
(the tool passes Vincenty's and the haversine formula); the contracts hold for whatever those
functions return.

Layout of `src/`:

- `railway_element`, `coordinate`, `types`: the elements and their counts.
- `railway_model`, `petgraph_specs`, `graph_lemmas`: the graph on petgraph, its model
  (node and edge sequences, walks, reachability, shortest distances) and facts about it.
- `importer`, `import_check`: building the graph from elements, and when that is possible.
- `railway_processing`, `edge`: nodes and node pairs taken directly from the elements.
- `railway_graph`, `railway_algorithms`, `path_finding`, `nearest`, `railway_edge_algos`,
  `algorithms`: queries and algorithms on the graph and on line strings.
- `ai`, `railway_objects`, `api_client`, `graph_operations`: the train agent, moving objects,
  the Overpass queries and the graph operations interface.
