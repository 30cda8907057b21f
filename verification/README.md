# cmaes_plotting

Data plots for runs of the CMA-ES optimisation algorithm, verified with Verus.

A `Plot` records data points while the algorithm runs, can be cleared down to its most recent data
point, and is laid out as four charts. `src/` holds all of that, verified; doubles are held there as
their bit patterns and ordered as doubles are. `app/` does the floating point arithmetic, hands its
results to the library, and draws the charts to an image with plotters.

- `value`, `integer`, `order`, `range`: doubles, ascending order, minima and ranges
- `data`, `plot`: recording, clearing, and the charts of a plot
- `points`, `label`, `palette`, `chart`, `layout`: what a chart shows
- `laws`: what holds of plots as a whole
