# axiomd

A Markdown viewer and editor for GNOME, as a verified library and the application
around it.

* `src/` is the library, proved with Verus: the `axiomd://` origin a document's page is
  served from and the containment rule every reach for a file goes through
  (`scheme`, `paths`, `links`), the one network fetch and what is believed of its reply
  (`remote`), where the reader left off in each document (`places`), search
  (`find`), the page-loading decisions of the document view and the text handed to its
  JavaScript (`view`, `js`), a window's history, mode and title (`window`), zoom
  (`zoom`), the outline's tree and widths (`outline`), settings (`settings`), the
  generation counter every superseding piece of work goes through (`watch`), the
  test-control framing (`control`), what the About dialog reads (`chrome`), the
  editor's positions (`editor`) and export (`export`). Each module states its laws as
  public proof functions whose names begin with `law_`.
* `tests/` runs the library on concrete values.
* `app/` is the GTK application: widgets, the webview, the file monitor, the socket,
  the filesystem, the clock, and the page numbering that lopdf and floating point do.
