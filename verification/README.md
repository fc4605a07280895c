# domino_counter

Counts the points of a row of dominoes in a photograph.

A photo higher than wide, cropped or not, is turned a quarter turn so that it
is landscape. The row is located
from a Canny edge map (or taken to fill a cropped photo), split into dominoes of equal width, and each
domino into its top and bottom halves. A half is read from the colours of its
pips: every pixel of the median-filtered half that is neither black nor white
votes for the domino values whose colour ranges it lies in, and the value with
the most votes (the smaller value among equals) is taken when enough pixels
voted for it. The double blank scores
50, every other domino the sum of its halves.

Layout:

- `src/` — the verified library: pixel classification (`pixel`), the library's
  images (`raster`), the calls into `image` and `imageproc` (`imaging`), the
  colour tables (`dominoes`), vote counting (`buckets`), ranking (`ranking`),
  colour statistics (`statistics`), locating the row (`location`), reading and
  scoring the row (`pipeline`), labels (`labels`) and the command-line tool's
  extra analyses (`command_line`).
- `app/` — the command-line tool, the browser entry point, logging, and the
  neural network that reads top halves in the browser build.
- `tests/` — tests of the library.
