# video_hls_api

A service that slices uploaded videos into HLS segments with FFmpeg, masks each
segment with a 67-byte 1×1 PNG prefix, uploads the masked segments to a CDN and
serves M3U8 playlists whose `#EXT-X-BYTERANGE:size@67` tags skip the mask.

- `src/` is the verified library: text primitives (`text`), errors and
  their HTTP answers (`errors`), configuration (`config`), the FFmpeg invocation
  and segment ordering (`ffmpeg`), PNG masking and CDN replies (`upload`),
  playlist rewriting (`hls`), the job store (`jobs`) and the endpoints'
  decisions (`handlers`).
- `app/` is the HTTP server around it (actix-web, reqwest, serde, utoipa): file
  and process I/O, multipart streams, CDN requests and JSON.
- `tests/` exercises the library on concrete values.
